//! Colours of the mixer window.
//!
//! The default is a true-black ("OLED") palette: on an OLED panel `#000000`
//! pixels are switched off entirely, so the window reads as a floating card
//! rather than a grey box. The accent colour is stored in the configuration
//! as `#rrggbb`. Handing the colours to the widget toolkit happens outside
//! this crate.

use vstd::prelude::*;
use vstd::string::StrSliceExecFns;

use crate::text::{is_white_space_spec, push_char, trim, trim_end_spec, trim_spec, trim_start_spec};

verus! {

/// An opaque colour.
#[derive(Debug, Clone, Copy, PartialEq, Eq, Structural)]
pub struct Rgb {
    pub r: u8,
    pub g: u8,
    pub b: u8,
}

/// A colour with straight (not premultiplied) alpha.
#[derive(Debug, Clone, Copy, PartialEq, Eq, Structural)]
pub struct Rgba {
    pub r: u8,
    pub g: u8,
    pub b: u8,
    pub a: u8,
}

/// Neutral grey, used when the configured accent cannot be parsed.
pub open spec fn default_accent_spec() -> Rgb {
    Rgb { r: 0x9A, g: 0xA3, b: 0xAD }
}

/// Neutral grey, used when the configured accent cannot be parsed.
pub fn default_accent() -> (r: Rgb)
    ensures
        r == default_accent_spec(),
{
    Rgb { r: 0x9A, g: 0xA3, b: 0xAD }
}

/// Opaque black.
pub open spec fn black_spec() -> Rgba {
    Rgba { r: 0, g: 0, b: 0, a: 255 }
}

/// Opaque black.
pub fn black() -> (r: Rgba)
    ensures
        r == black_spec(),
{
    Rgba { r: 0, g: 0, b: 0, a: 255 }
}

/// Opaque white.
pub fn white() -> (r: Rgb)
    ensures
        r == (Rgb { r: 255, g: 255, b: 255 }),
{
    Rgb { r: 255, g: 255, b: 255 }
}

/// The value of a hexadecimal digit, or -1 for anything else.
pub open spec fn hex_digit_value(c: char) -> int {
    if '0' <= c <= '9' {
        c as int - '0' as int
    } else if 'a' <= c <= 'f' {
        c as int - 'a' as int + 10
    } else if 'A' <= c <= 'F' {
        c as int - 'A' as int + 10
    } else {
        -1
    }
}

/// Whether every character of `s` is a hexadecimal digit.
pub open spec fn all_hex(s: Seq<char>) -> bool {
    forall|i: int| 0 <= i < s.len() ==> hex_digit_value(#[trigger] s[i]) >= 0
}

/// The number the hexadecimal digits `s` spell.
pub open spec fn hex_value(s: Seq<char>) -> int
    decreases s.len(),
{
    if s.len() == 0 {
        0
    } else {
        hex_value(s.drop_last()) * 16 + hex_digit_value(s.last())
    }
}

/// `s` without any leading `#`.
pub open spec fn strip_hashes(s: Seq<char>) -> Seq<char>
    decreases s.len(),
{
    if s.len() > 0 && s[0] == '#' {
        strip_hashes(s.drop_first())
    } else {
        s
    }
}

/// The number an accent text stands for: exactly six hexadecimal digits
/// after surrounding space and any leading `#` are removed.
pub open spec fn accent_value(text: Seq<char>) -> Option<int> {
    let h = strip_hashes(trim_spec(text));
    if h.len() == 6 && all_hex(h) {
        Some(hex_value(h))
    } else {
        None
    }
}

/// The colour an accent text stands for, or `DEFAULT_ACCENT`.
pub open spec fn parse_accent_spec(text: Seq<char>) -> Rgb {
    match accent_value(text) {
        Some(v) => Rgb { r: (v / 0x1_0000) as u8, g: ((v / 0x100) % 0x100) as u8, b: (v % 0x100) as u8 },
        None => default_accent_spec(),
    }
}

fn hex_digit(c: char) -> (r: Option<u32>)
    ensures
        match r {
            Some(v) => hex_digit_value(c) == v as int && v < 16,
            None => hex_digit_value(c) < 0,
        },
{
    if '0' <= c && c <= '9' {
        Some((c as u32) - ('0' as u32))
    } else if 'a' <= c && c <= 'f' {
        Some((c as u32) - ('a' as u32) + 10)
    } else if 'A' <= c && c <= 'F' {
        Some((c as u32) - ('A' as u32) + 10)
    } else {
        None
    }
}

proof fn lemma_hex_value_bound(s: Seq<char>)
    requires
        all_hex(s),
    ensures
        0 <= hex_value(s) < pow16(s.len()),
    decreases s.len(),
{
    if s.len() > 0 {
        assert(all_hex(s.drop_last())) by {
            assert forall|i: int| 0 <= i < s.drop_last().len() implies hex_digit_value(
                #[trigger] s.drop_last()[i],
            ) >= 0 by {
                assert(s.drop_last()[i] == s[i]);
            }
        }
        lemma_hex_value_bound(s.drop_last());
        assert(hex_digit_value(s[s.len() - 1]) >= 0);
        assert(hex_digit_value(s.last()) <= 15);
    }
}

/// 16 to the power `n`.
pub open spec fn pow16(n: nat) -> int
    decreases n,
{
    if n == 0 {
        1
    } else {
        16 * pow16((n - 1) as nat)
    }
}

/// Parse an accent colour written as `#rrggbb`. Falls back to the default
/// accent for anything unparseable, so a hand-edited configuration file can
/// never make the interface unreadable.
pub fn parse_accent(text: &str) -> (r: Rgb)
    ensures
        r == parse_accent_spec(text@),
{
    let trimmed = trim(text);
    let n = trimmed.unicode_len();
    let mut start: usize = 0;
    proof {
        assert(trimmed@.skip(0) =~= trimmed@);
    }
    while start < n && trimmed.get_char(start) == '#'
        invariant
            start <= n,
            n == trimmed@.len(),
            strip_hashes(trimmed@) == strip_hashes(trimmed@.skip(start as int)),
        decreases n - start,
    {
        proof {
            let rest = trimmed@.skip(start as int);
            assert(rest[0] == '#');
            assert(rest.drop_first() =~= trimmed@.skip(start + 1));
        }
        start = start + 1;
    }
    let ghost h = trimmed@.skip(start as int);
    proof {
        if start < n {
            assert(h[0] != '#');
        }
        assert(strip_hashes(h) == h);
    }
    if n - start != 6 {
        return default_accent();
    }
    let first = start;
    let ghost digits = trimmed@.subrange(first as int, n as int);
    proof {
        assert(digits =~= h);
    }
    let mut value: u32 = 0;
    let mut i: usize = first;
    proof {
        assert(trimmed@.subrange(first as int, first as int) =~= Seq::<char>::empty());
        reveal_with_fuel(pow16, 7);
        assert(h.len() == 6);
        assert(accent_value(text@) == (if all_hex(digits) {
            Some(hex_value(digits))
        } else {
            None
        }));
    }
    while i < n
        invariant
            first <= i <= n,
            n == trimmed@.len(),
            n - first <= 6,
            digits == trimmed@.subrange(first as int, n as int),
            all_hex(trimmed@.subrange(first as int, i as int)),
            value as int == hex_value(trimmed@.subrange(first as int, i as int)),
            value < pow16((i - first) as nat),
            pow16(6) == 0x100_0000,
            pow16((i - first) as nat) <= pow16(6),
            accent_value(text@) == (if all_hex(digits) {
                Some(hex_value(digits))
            } else {
                None
            }),
        decreases n - i,
    {
        let c = trimmed.get_char(i);
        let ghost done = trimmed@.subrange(first as int, i as int);
        let ghost next = trimmed@.subrange(first as int, i + 1);
        proof {
            assert(next.drop_last() =~= done);
            assert(next.last() == c);
        }
        match hex_digit(c) {
            Some(d) => {
                proof {
                    lemma_pow16_step((i - first) as nat);
                    lemma_pow16_le((i + 1 - first) as nat, 6);
                }
                value = value * 16 + d;
                proof {
                    assert forall|k: int| 0 <= k < next.len() implies hex_digit_value(
                        #[trigger] next[k],
                    ) >= 0 by {
                        if k < done.len() {
                            assert(next[k] == done[k]);
                        }
                    }
                }
            },
            None => {
                proof {
                    assert(digits[i - first] == c);
                    assert(!all_hex(digits));
                }
                return default_accent();
            },
        }
        i = i + 1;
    }
    proof {
        assert(trimmed@.subrange(first as int, n as int) == digits);
        assert(accent_value(text@) == Some(value as int));
    }
    Rgb { r: (value / 0x1_0000) as u8, g: ((value / 0x100) % 0x100) as u8, b: (value % 0x100) as u8 }
}

proof fn lemma_pow16_step(n: nat)
    ensures
        pow16(n + 1) == 16 * pow16(n),
{
}

proof fn lemma_pow16_le(m: nat, n: nat)
    requires
        m <= n,
    ensures
        pow16(m) <= pow16(n),
        pow16(m) >= 1,
    decreases n,
{
    if n > 0 {
        if m < n {
            lemma_pow16_le(m, (n - 1) as nat);
        } else {
            lemma_pow16_le((m - 1) as nat, (n - 1) as nat);
        }
    }
}

/// The upper-case hexadecimal digit for `n` in 0..16.
pub open spec fn hex_char_spec(n: int) -> char {
    if n < 10 {
        (48 + n) as char
    } else {
        (55 + n) as char
    }
}

/// Two upper-case hexadecimal digits for a byte.
pub open spec fn hex_byte_spec(b: u8) -> Seq<char> {
    seq![hex_char_spec(b as int / 16), hex_char_spec(b as int % 16)]
}

/// `#RRGGBB` in upper case.
pub open spec fn accent_to_hex_spec(c: Rgb) -> Seq<char> {
    seq!['#'] + hex_byte_spec(c.r) + hex_byte_spec(c.g) + hex_byte_spec(c.b)
}

fn hex_char(n: u8) -> (r: char)
    requires
        n < 16,
    ensures
        r == hex_char_spec(n as int),
{
    if n < 10 {
        (48 + n) as char
    } else {
        (55 + n) as char
    }
}

fn push_hex_byte(s: &mut String, b: u8)
    ensures
        final(s)@ == old(s)@ + hex_byte_spec(b),
{
    push_char(s, hex_char(b / 16));
    push_char(s, hex_char(b % 16));
    assert(final(s)@ =~= old(s)@ + hex_byte_spec(b));
}

/// `#RRGGBB` in upper case, the form the configuration stores.
pub fn accent_to_hex(color: Rgb) -> (r: String)
    ensures
        r@ == accent_to_hex_spec(color),
{
    let mut text = String::new();
    push_char(&mut text, '#');
    push_hex_byte(&mut text, color.r);
    push_hex_byte(&mut text, color.g);
    push_hex_byte(&mut text, color.b);
    assert(text@ =~= accent_to_hex_spec(color));
    text
}

proof fn lemma_hex_char(n: int)
    requires
        0 <= n < 16,
    ensures
        hex_digit_value(hex_char_spec(n)) == n,
        hex_char_spec(n) != '#',
        hex_char_spec(n) != '+',
        !is_white_space_spec(hex_char_spec(n)),
{
}

proof fn lemma_hex_value_step(s: Seq<char>, k: int)
    requires
        0 <= k < s.len(),
    ensures
        hex_value(s.take(k + 1)) == hex_value(s.take(k)) * 16 + hex_digit_value(s[k]),
{
    assert(s.take(k + 1).drop_last() =~= s.take(k));
    assert(s.take(k + 1).last() == s[k]);
}

proof fn lemma_byte_digits(b: u8)
    ensures
        (b as int / 16) * 16 + b as int % 16 == b as int,
        0 <= b as int / 16 < 16,
        0 <= b as int % 16 < 16,
{
}

proof fn lemma_rgb_decode(r: int, g: int, b: int)
    requires
        0 <= r < 256,
        0 <= g < 256,
        0 <= b < 256,
    ensures
        (r * 0x1_0000 + g * 0x100 + b) / 0x1_0000 == r,
        ((r * 0x1_0000 + g * 0x100 + b) / 0x100) % 0x100 == g,
        (r * 0x1_0000 + g * 0x100 + b) % 0x100 == b,
{
    assert((r * 0x1_0000 + g * 0x100 + b) / 0x1_0000 == r) by (nonlinear_arith)
        requires
            0 <= r < 256,
            0 <= g < 256,
            0 <= b < 256,
    ;
    assert((r * 0x1_0000 + g * 0x100 + b) / 0x100 == r * 0x100 + g) by (nonlinear_arith)
        requires
            0 <= r < 256,
            0 <= g < 256,
            0 <= b < 256,
    ;
    assert((r * 0x100 + g) % 0x100 == g) by (nonlinear_arith)
        requires
            0 <= r < 256,
            0 <= g < 256,
    ;
    assert((r * 0x1_0000 + g * 0x100 + b) % 0x100 == b) by (nonlinear_arith)
        requires
            0 <= r < 256,
            0 <= g < 256,
            0 <= b < 256,
    ;
}

/// Writing a colour as text and reading it back gives the same colour.
pub proof fn lemma_accent_round_trip(color: Rgb)
    ensures
        parse_accent_spec(accent_to_hex_spec(color)) == color,
{
    let s = accent_to_hex_spec(color);
    let (r, g, b) = (color.r as int, color.g as int, color.b as int);
    lemma_byte_digits(color.r);
    lemma_byte_digits(color.g);
    lemma_byte_digits(color.b);
    lemma_hex_char(r / 16);
    lemma_hex_char(r % 16);
    lemma_hex_char(g / 16);
    lemma_hex_char(g % 16);
    lemma_hex_char(b / 16);
    lemma_hex_char(b % 16);
    assert(s.len() == 7);
    assert(s[0] == '#');
    assert(trim_start_spec(s) == s);
    assert(s.last() == s[6]);
    assert(s[6] == hex_char_spec(b % 16));
    assert(trim_end_spec(s) == s);
    let h = s.drop_first();
    assert(h =~= hex_byte_spec(color.r) + hex_byte_spec(color.g) + hex_byte_spec(color.b));
    assert(h[0] == hex_char_spec(r / 16));
    assert(strip_hashes(h) == h);
    assert(strip_hashes(s) == h);
    assert(all_hex(h));
    assert(h.take(0) =~= Seq::<char>::empty());
    lemma_hex_value_step(h, 0);
    lemma_hex_value_step(h, 1);
    lemma_hex_value_step(h, 2);
    lemma_hex_value_step(h, 3);
    lemma_hex_value_step(h, 4);
    lemma_hex_value_step(h, 5);
    assert(h.take(6) =~= h);
    assert(hex_value(h.take(2)) == r);
    assert(hex_value(h.take(4)) == r * 0x100 + g);
    assert(hex_value(h) == r * 0x1_0000 + g * 0x100 + b);
    lemma_rgb_decode(r, g, b);
}

/// Accents offered in the settings panel, as `(name, #rrggbb)`. Chosen to
/// stay legible on pure black.
pub open spec fn accent_choices_spec() -> Seq<(Seq<char>, Seq<char>)> {
    seq![
        ("Grey"@, "#9AA3AD"@),
        ("Ice"@, "#4CC2FF"@),
        ("Mint"@, "#3DDC97"@),
        ("Amber"@, "#FFB454"@),
        ("Magenta"@, "#FF6FB5"@),
        ("Violet"@, "#A88BFF"@),
        ("White"@, "#E8E8EC"@),
    ]
}

/// Accents offered in the settings panel, as `(name, #rrggbb)`, in the
/// order they are shown.
pub fn accent_choices() -> (r: Vec<(&'static str, &'static str)>)
    ensures
        r@.len() == accent_choices_spec().len(),
        forall|i: int|
            0 <= i < r@.len() ==> ((#[trigger] r@[i]).0@, r@[i].1@) == accent_choices_spec()[i],
{
    let mut choices = Vec::new();
    choices.push(("Grey", "#9AA3AD"));
    choices.push(("Ice", "#4CC2FF"));
    choices.push(("Mint", "#3DDC97"));
    choices.push(("Amber", "#FFB454"));
    choices.push(("Magenta", "#FF6FB5"));
    choices.push(("Violet", "#A88BFF"));
    choices.push(("White", "#E8E8EC"));
    choices
}

proof fn lemma_hex_text_round_trip(hex: Seq<char>, c: Rgb)
    requires
        hex == accent_to_hex_spec(c),
    ensures
        parse_accent_spec(hex) == c,
        accent_to_hex_spec(parse_accent_spec(hex)) == hex,
{
    lemma_accent_round_trip(c);
}

/// Every offered accent is stored exactly as it is offered: its text read
/// as a colour and written back is the same text.
pub proof fn lemma_offered_accents_round_trip()
    ensures
        forall|i: int|
            0 <= i < accent_choices_spec().len() ==> accent_to_hex_spec(
                parse_accent_spec(#[trigger] accent_choices_spec()[i].1),
            ) == accent_choices_spec()[i].1,
{
    reveal_strlit("#9AA3AD");
    reveal_strlit("#4CC2FF");
    reveal_strlit("#3DDC97");
    reveal_strlit("#FFB454");
    reveal_strlit("#FF6FB5");
    reveal_strlit("#A88BFF");
    reveal_strlit("#E8E8EC");
    let l = accent_choices_spec();
    assert(l[0].1 =~= accent_to_hex_spec(Rgb { r: 0x9A, g: 0xA3, b: 0xAD }));
    lemma_hex_text_round_trip(l[0].1, Rgb { r: 0x9A, g: 0xA3, b: 0xAD });
    assert(l[1].1 =~= accent_to_hex_spec(Rgb { r: 0x4C, g: 0xC2, b: 0xFF }));
    lemma_hex_text_round_trip(l[1].1, Rgb { r: 0x4C, g: 0xC2, b: 0xFF });
    assert(l[2].1 =~= accent_to_hex_spec(Rgb { r: 0x3D, g: 0xDC, b: 0x97 }));
    lemma_hex_text_round_trip(l[2].1, Rgb { r: 0x3D, g: 0xDC, b: 0x97 });
    assert(l[3].1 =~= accent_to_hex_spec(Rgb { r: 0xFF, g: 0xB4, b: 0x54 }));
    lemma_hex_text_round_trip(l[3].1, Rgb { r: 0xFF, g: 0xB4, b: 0x54 });
    assert(l[4].1 =~= accent_to_hex_spec(Rgb { r: 0xFF, g: 0x6F, b: 0xB5 }));
    lemma_hex_text_round_trip(l[4].1, Rgb { r: 0xFF, g: 0x6F, b: 0xB5 });
    assert(l[5].1 =~= accent_to_hex_spec(Rgb { r: 0xA8, g: 0x8B, b: 0xFF }));
    lemma_hex_text_round_trip(l[5].1, Rgb { r: 0xA8, g: 0x8B, b: 0xFF });
    assert(l[6].1 =~= accent_to_hex_spec(Rgb { r: 0xE8, g: 0xE8, b: 0xEC }));
    lemma_hex_text_round_trip(l[6].1, Rgb { r: 0xE8, g: 0xE8, b: 0xEC });
}

/// Colours derived from the settings and handed to the widgets.
#[derive(Debug, Clone, Copy, PartialEq, Eq)]
pub struct Palette {
    pub background: Rgba,
    /// Slightly raised surface, used for the header and hovered rows.
    pub surface: Rgba,
    pub surface_hover: Rgba,
    pub border: Rgba,
    pub text: Rgba,
    pub text_dim: Rgba,
    pub accent: Rgba,
    /// Track behind the filled part of a slider.
    pub track: Rgba,
    pub danger: Rgba,
}

/// An opaque colour with alpha.
pub open spec fn opaque(r: u8, g: u8, b: u8) -> Rgba {
    Rgba { r, g, b, a: 255 }
}

impl Palette {
    /// The palette for the given background choice and accent. Everything
    /// above the background is built from very low alpha whites, which keeps
    /// contrast steps consistent whatever the accent.
    pub fn new(oled_black: bool, accent: Rgb) -> (p: Self)
        ensures
            p.background == (if oled_black {
                black_spec()
            } else {
                opaque(0x12, 0x12, 0x14)
            }),
            p.surface == (Rgba { r: 255, g: 255, b: 255, a: 8 }),
            p.surface_hover == (Rgba { r: 255, g: 255, b: 255, a: 18 }),
            p.border == opaque(0x24, 0x24, 0x28),
            p.text == opaque(0xEC, 0xEC, 0xEF),
            p.text_dim == opaque(0x8A, 0x8A, 0x95),
            p.accent == opaque(accent.r, accent.g, accent.b),
            p.track == (Rgba { r: 255, g: 255, b: 255, a: 26 }),
            p.danger == opaque(0xFF, 0x6B, 0x6B),
    {
        let background = if oled_black {
            black()
        } else {
            Rgba { r: 0x12, g: 0x12, b: 0x14, a: 255 }
        };
        Palette {
            background,
            surface: Rgba { r: 255, g: 255, b: 255, a: 8 },
            surface_hover: Rgba { r: 255, g: 255, b: 255, a: 18 },
            border: Rgba { r: 0x24, g: 0x24, b: 0x28, a: 255 },
            text: Rgba { r: 0xEC, g: 0xEC, b: 0xEF, a: 255 },
            text_dim: Rgba { r: 0x8A, g: 0x8A, b: 0x95, a: 255 },
            accent: Rgba { r: accent.r, g: accent.g, b: accent.b, a: 255 },
            track: Rgba { r: 255, g: 255, b: 255, a: 26 },
            danger: Rgba { r: 0xFF, g: 0x6B, b: 0x6B, a: 255 },
        }
    }
}

} // verus!
