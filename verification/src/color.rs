//! Project colors: the palette and the reading of `#rrggbb` text.
use vstd::prelude::*;
use crate::text::chars_of;

verus! {

/// The palette offered for projects, as hex text.
pub const PROJECT_COLORS: [&'static str; 8] = [
    "#6366f1",
    "#0ea5e9",
    "#10b981",
    "#f59e0b",
    "#ef4444",
    "#ec4899",
    "#8b5cf6",
    "#14b8a6",
];

/// `s` without its leading `#` characters (`str::trim_start_matches('#')`).
pub open spec fn strip_hashes(s: Seq<char>) -> Seq<char>
    decreases s.len(),
{
    if s.len() > 0 && s[0] == '#' {
        strip_hashes(s.drop_first())
    } else {
        s
    }
}

/// A digit of base 16, in either case.
pub open spec fn is_hex_digit(c: char) -> bool {
    ('0' <= c && c <= '9') || ('a' <= c && c <= 'f') || ('A' <= c && c <= 'F')
}

/// The value of a base-16 digit.
pub open spec fn hex_digit_value(c: char) -> nat {
    if '0' <= c && c <= '9' {
        (c as int - '0' as int) as nat
    } else if 'a' <= c && c <= 'f' {
        (c as int - 'a' as int + 10) as nat
    } else {
        (c as int - 'A' as int + 10) as nat
    }
}

/// The value of a run of base-16 digits, most significant first.
pub open spec fn hex_value(d: Seq<char>) -> nat
    decreases d.len(),
{
    if d.len() == 0 {
        0
    } else {
        hex_value(d.drop_last()) * 16 + hex_digit_value(d.last())
    }
}

/// The digits that `u32::from_str_radix(h, 16)` reads: an optional leading `+` is skipped.
pub open spec fn radix_digits(h: Seq<char>) -> Seq<char> {
    if h.len() > 0 && h[0] == '+' {
        h.drop_first()
    } else {
        h
    }
}

/// `u32::from_str_radix(h, 16)` succeeds on `h` (for text short enough not to overflow).
pub open spec fn parses_as_hex(h: Seq<char>) -> bool {
    let d = radix_digits(h);
    &&& d.len() > 0
    &&& forall|i: int| 0 <= i < d.len() ==> is_hex_digit(#[trigger] d[i])
}

/// The color used when a color text cannot be read.
pub open spec fn fallback_rgb() -> (u8, u8, u8) {
    (0x63u8, 0x66u8, 0xf1u8)
}

/// The red, green and blue components that a color text stands for:
/// after the leading `#` characters, exactly six characters that parse in base 16;
/// anything else gives the fallback color.
pub open spec fn rgb_of(s: Seq<char>) -> (u8, u8, u8) {
    let h = strip_hashes(s);
    if h.len() == 6 && parses_as_hex(h) {
        let v = hex_value(radix_digits(h));
        ((v / 65536) as u8, ((v / 256) % 256) as u8, (v % 256) as u8)
    } else {
        fallback_rgb()
    }
}

/// Sixteen to the power `k`.
pub open spec fn pow16(k: nat) -> nat
    decreases k,
{
    if k == 0 {
        1
    } else {
        16 * pow16((k - 1) as nat)
    }
}

proof fn lemma_pow16_small(k: nat)
    requires
        k <= 6,
    ensures
        pow16(k) <= 16777216,
{
    reveal_with_fuel(pow16, 7);
}

proof fn lemma_strip_hashes_skip(s: Seq<char>, i: int)
    requires
        0 <= i <= s.len(),
        forall|k: int| 0 <= k < i ==> #[trigger] s[k] == '#',
        i == s.len() || s[i] != '#',
    ensures
        strip_hashes(s) == s.skip(i),
    decreases i,
{
    if i == 0 {
        assert(s.skip(0) == s);
    } else {
        let t = s.drop_first();
        assert forall|k: int| 0 <= k < i - 1 implies #[trigger] t[k] == '#' by {
            assert(t[k] == s[k + 1]);
        }
        lemma_strip_hashes_skip(t, i - 1);
        assert(t.skip(i - 1) == s.skip(i));
    }
}

fn hex_digit(c: char) -> (r: Option<u32>)
    ensures
        r is Some <==> is_hex_digit(c),
        r matches Some(v) ==> v == hex_digit_value(c) && v < 16,
{
    if '0' <= c && c <= '9' {
        Some((c as u32) - ('0' as u32))
    } else if 'a' <= c && c <= 'f' {
        Some((c as u32) - ('a' as u32) + 10)
    } else if 'A' <= c && c <= 'F' {
        Some((c as u32) - ('A' as u32) + 10)
    } else {
        None
    }
}

/// The red, green and blue components of a `#rrggbb` color text, or the
/// fallback color `(0x63, 0x66, 0xf1)` when the text is not one.
pub fn hex_color(hex: &str) -> (rgb: (u8, u8, u8))
    ensures
        rgb == rgb_of(hex@),
{
    let v = chars_of(hex);
    let n = v.len();
    let mut i: usize = 0;
    while i < n && v[i] == '#'
        invariant
            i <= n,
            n == v@.len(),
            forall|k: int| 0 <= k < i ==> #[trigger] v@[k] == '#',
        decreases n - i,
    {
        i = i + 1;
    }
    proof {
        lemma_strip_hashes_skip(v@, i as int);
    }
    let ghost h = v@.skip(i as int);
    if n - i != 6 {
        return (0x63, 0x66, 0xf1);
    }
    let start = if v[i] == '+' { i + 1 } else { i };
    let ghost d = radix_digits(h);
    assert(d == v@.subrange(start as int, n as int));
    let mut value: u32 = 0;
    let mut k: usize = start;
    while k < n
        invariant
            i <= start <= k <= n,
            n == v@.len(),
            n - i == 6,
            d == v@.subrange(start as int, n as int),
            d == radix_digits(h),
            h.len() == 6,
            strip_hashes(hex@) == h,
            forall|j: int| 0 <= j < k - start ==> is_hex_digit(#[trigger] d[j]),
            value == hex_value(d.take(k - start)),
            value < pow16((k - start) as nat),
        decreases n - k,
    {
        proof {
            lemma_pow16_small((k - start) as nat);
        }
        match hex_digit(v[k]) {
            Some(dv) => {
                proof {
                    let t = d.take(k - start + 1);
                    assert(t.drop_last() == d.take(k - start));
                    assert(t.last() == v@[k as int]);
                }
                value = value * 16 + dv;
            },
            None => {
                assert(!is_hex_digit(d[k - start]));
                assert(!parses_as_hex(h));
                assert(strip_hashes(hex@) == h);
                return (0x63, 0x66, 0xf1);
            },
        }
        k = k + 1;
    }
    if start == n {
        return (0x63, 0x66, 0xf1);
    }
    proof {
        assert(d.take(d.len() as int) == d);
        lemma_pow16_small((n - start) as nat);
    }
    ((value / 65536) as u8, ((value / 256) % 256) as u8, (value % 256) as u8)
}

/// The lower-case hexadecimal digit of `n < 16`.
pub open spec fn lower_hex_digit(n: nat) -> char {
    if n < 10 {
        (('0' as int) + n) as char
    } else {
        (('a' as int) + n - 10) as char
    }
}

/// The two lower-case hexadecimal digits of a byte.
pub open spec fn hex_byte(b: u8) -> Seq<char> {
    seq![lower_hex_digit((b / 16) as nat), lower_hex_digit((b % 16) as nat)]
}

/// The text `#rrggbb` of a color, as `format!("#{:02x}{:02x}{:02x}", r, g, b)` writes it.
pub open spec fn color_text(rgb: (u8, u8, u8)) -> Seq<char> {
    seq!['#'] + hex_byte(rgb.0) + hex_byte(rgb.1) + hex_byte(rgb.2)
}

proof fn lemma_lower_hex_digit(n: nat)
    requires
        n < 16,
    ensures
        is_hex_digit(lower_hex_digit(n)),
        hex_digit_value(lower_hex_digit(n)) == n,
        lower_hex_digit(n) != '#',
        lower_hex_digit(n) != '+',
{
}

proof fn lemma_hex_value_two_more(a: Seq<char>, x: char, y: char)
    ensures
        hex_value(a + seq![x, y]) == hex_value(a) * 256 + hex_digit_value(x) * 16 + hex_digit_value(y),
{
    let ax = a + seq![x];
    let axy = a + seq![x, y];
    assert(axy.drop_last() =~= ax);
    assert(axy.last() == y);
    assert(ax.drop_last() =~= a);
    assert(ax.last() == x);
    assert(hex_value(ax) == hex_value(a) * 16 + hex_digit_value(x));
    assert(hex_value(axy) == hex_value(ax) * 16 + hex_digit_value(y));
    let hv = hex_value(a) as int;
    let vx = hex_digit_value(x) as int;
    assert((hv * 16 + vx) * 16 == hv * 256 + vx * 16) by (nonlinear_arith);
}

/// Every color text `#rrggbb` reads back as the color it was written from.
pub proof fn color_text_reads_back(rgb: (u8, u8, u8))
    ensures
        rgb_of(color_text(rgb)) == rgb,
{
    let (r, g, b) = rgb;
    lemma_lower_hex_digit((r / 16) as nat);
    lemma_lower_hex_digit((r % 16) as nat);
    lemma_lower_hex_digit((g / 16) as nat);
    lemma_lower_hex_digit((g % 16) as nat);
    lemma_lower_hex_digit((b / 16) as nat);
    lemma_lower_hex_digit((b % 16) as nat);
    let t = color_text(rgb);
    let h = hex_byte(r) + hex_byte(g) + hex_byte(b);
    assert(t == seq!['#'] + h);
    assert(t.drop_first() =~= h);
    assert(h.len() == 6);
    assert(h[0] == lower_hex_digit((r / 16) as nat));
    assert(strip_hashes(h) == h);
    assert(strip_hashes(t) == h);
    assert(radix_digits(h) == h);
    assert forall|i: int| 0 <= i < h.len() implies is_hex_digit(#[trigger] h[i]) by {}
    assert(parses_as_hex(h));
    let e = Seq::<char>::empty();
    assert(e + hex_byte(r) =~= hex_byte(r));
    lemma_hex_value_two_more(e, hex_byte(r)[0], hex_byte(r)[1]);
    assert(hex_value(e) == 0);
    lemma_hex_value_two_more(hex_byte(r), hex_byte(g)[0], hex_byte(g)[1]);
    lemma_hex_value_two_more(hex_byte(r) + hex_byte(g), hex_byte(b)[0], hex_byte(b)[1]);
    assert(hex_byte(r) + hex_byte(g) =~= hex_byte(r) + seq![hex_byte(g)[0], hex_byte(g)[1]]);
    assert(h =~= (hex_byte(r) + hex_byte(g)) + seq![hex_byte(b)[0], hex_byte(b)[1]]);
    assert(hex_byte(r) =~= e + seq![hex_byte(r)[0], hex_byte(r)[1]]);
    let v = hex_value(h);
    assert(v == (r as int) * 65536 + (g as int) * 256 + (b as int)) by (nonlinear_arith)
        requires
            v == (((r / 16) as int * 16 + (r % 16) as int) * 256 + (g / 16) as int * 16 + (g % 16) as int) * 256
                + (b / 16) as int * 16 + (b % 16) as int,
            r < 256,
    ;
    assert(v / 65536 == r && (v / 256) % 256 == g && v % 256 == b) by (nonlinear_arith)
        requires
            v == (r as int) * 65536 + (g as int) * 256 + (b as int),
            r < 256,
            g < 256,
            b < 256,
    ;
}

/// The color each palette entry stands for.
pub open spec fn palette_rgb(i: int) -> (u8, u8, u8) {
    if i == 0 {
        (0x63u8, 0x66u8, 0xf1u8)
    } else if i == 1 {
        (0x0eu8, 0xa5u8, 0xe9u8)
    } else if i == 2 {
        (0x10u8, 0xb9u8, 0x81u8)
    } else if i == 3 {
        (0xf5u8, 0x9eu8, 0x0bu8)
    } else if i == 4 {
        (0xefu8, 0x44u8, 0x44u8)
    } else if i == 5 {
        (0xecu8, 0x48u8, 0x99u8)
    } else if i == 6 {
        (0x8bu8, 0x5cu8, 0xf6u8)
    } else {
        (0x14u8, 0xb8u8, 0xa6u8)
    }
}

/// Every palette entry is the text `#rrggbb` of its color and reads back as
/// that color (never as the fallback for unreadable text).
pub proof fn palette_colors_read_back()
    ensures
        forall|i: int|
            0 <= i < 8 ==> #[trigger] PROJECT_COLORS[i]@ == color_text(palette_rgb(i)) && rgb_of(
                PROJECT_COLORS[i]@,
            ) == palette_rgb(i),
{
    reveal_strlit("#6366f1");
    reveal_strlit("#0ea5e9");
    reveal_strlit("#10b981");
    reveal_strlit("#f59e0b");
    reveal_strlit("#ef4444");
    reveal_strlit("#ec4899");
    reveal_strlit("#8b5cf6");
    reveal_strlit("#14b8a6");
    assert forall|i: int| 0 <= i < 8 implies #[trigger] PROJECT_COLORS[i]@ == color_text(palette_rgb(i))
        && rgb_of(PROJECT_COLORS[i]@) == palette_rgb(i) by {
        assert(PROJECT_COLORS[i]@ =~= color_text(palette_rgb(i)));
        color_text_reads_back(palette_rgb(i));
    }
}

} // verus!
