//! Colors of the attribute SVG writer, and the text it gives them.
//!
//! A color is written `rgba(r,g,b,alpha)` where `alpha` is the opacity
//! `a / 255` as a single-precision float prints: the shortest decimal that
//! reads back to the same `f32`. This module computes that text with integers.
use vstd::prelude::*;

use crate::textual::{decimal, decimal_text, push_char, push_decimal, push_str};

verus! {

/// A color.
#[derive(Debug, Clone, Copy, PartialEq, Eq, Structural)]
pub enum Color {
    /// Red, green, blue and alpha components.
    RGBA { r: u8, g: u8, b: u8, a: u8 },
    /// Opaque red, green and blue components.
    RGB { r: u8, g: u8, b: u8 },
    /// Opaque color written `0xRRGGBB`; bits above the lowest 24 are not read.
    U32(u32),
}

pub open spec fn byte_of(c: u32, shift: nat) -> u8 {
    ((c as nat / pow2_spec(shift)) % 256) as u8
}

pub open spec fn pow2_spec(n: nat) -> nat
    decreases n,
{
    if n == 0 { 1 } else { 2 * pow2_spec((n - 1) as nat) }
}

pub open spec fn pow10_spec(n: nat) -> nat
    decreases n,
{
    if n == 0 { 1 } else { 10 * pow10_spec((n - 1) as nat) }
}

impl Color {
    /// The same color as `RGBA`.
    pub open spec fn rgba_spec(self) -> Color {
        match self {
            Color::RGBA { r, g, b, a } => self,
            Color::RGB { r, g, b } => Color::RGBA { r, g, b, a: 255 },
            Color::U32(c) => Color::RGBA { r: byte_of(c, 16), g: byte_of(c, 8), b: byte_of(c, 0), a: 255 },
        }
    }

    /// The same color as `RGBA`.
    pub fn rgba(&self) -> (r: Color)
        ensures
            r == self.rgba_spec(),
    {
        match *self {
            Color::RGBA { r, g, b, a } => *self,
            Color::RGB { r, g, b } => Color::RGBA { r, g, b, a: 255 },
            Color::U32(c) => {
                assert(pow2_spec(0) == 1);
                assert(pow2_spec(8) == 256) by {
            reveal_with_fuel(pow2_spec, 9);
        }
                assert(pow2_spec(16) == 65536) by {
            reveal_with_fuel(pow2_spec, 17);
        }
                Color::RGBA {
                    r: ((c / 65536) % 256) as u8,
                    g: ((c / 256) % 256) as u8,
                    b: (c % 256) as u8,
                    a: 255,
                }
            },
        }
    }
}

// ---------------------------------------------------------------------------
// The opacity a / 255 as a single-precision float, and its shortest decimal.
// ---------------------------------------------------------------------------

/// For 1 <= a <= 254, the e in 1..=8 with 255 <= a * 2^e < 510:
/// a / 255 lies in [2^-e, 2^(1-e)).
pub open spec fn alpha_exponent(a: nat) -> nat {
    if a >= 128 { 1 }
    else if a >= 64 { 2 }
    else if a >= 32 { 3 }
    else if a >= 16 { 4 }
    else if a >= 8 { 5 }
    else if a >= 4 { 6 }
    else if a >= 2 { 7 }
    else { 8 }
}

/// The binary exponent: the float is `alpha_mantissa(a) / 2^alpha_shift(a)`.
pub open spec fn alpha_shift(a: nat) -> nat {
    23 + alpha_exponent(a)
}

/// The 24-bit mantissa of a / 255 rounded to nearest (no tie can occur: 255 is odd).
pub open spec fn alpha_mantissa(a: nat) -> nat {
    let n = a * pow2_spec(alpha_shift(a));
    n / 255 + if 2 * (n % 255) > 255 { 1nat } else { 0nat }
}

/// Whether `d / 10^k` reads back as the float `m / 2^p` (normal, 24-bit `m`):
/// it lies within half a unit of the float's last place on each side (a
/// quarter below a power of two), boundaries included when `m` is even.
pub open spec fn reads_back(m: int, p: nat, k: nat, d: int) -> bool {
    let l = d * pow2_spec(p + 2);
    let r = 4 * m * pow10_spec(k);
    let below = if m > pow2_spec(23) { 2int } else { 1int };
    if l >= r {
        l - r < 2 * pow10_spec(k) || (l - r == 2 * pow10_spec(k) && m % 2 == 0)
    } else {
        r - l < below * pow10_spec(k) || (r - l == below * pow10_spec(k) && m % 2 == 0)
    }
}

/// The k-digit decimal nearest to `m / 2^p` that reads back as it, if any.
/// Such decimals form an interval around the float, so one exists exactly
/// when one of the two nearest does; the nearer is taken, the lower on a tie.
pub open spec fn digits_at(m: int, p: nat, k: nat) -> Option<int> {
    let x = m * pow10_spec(k);
    let d0 = x / (pow2_spec(p) as int);
    let ok0 = reads_back(m, p, k, d0);
    let ok1 = reads_back(m, p, k, d0 + 1);
    if ok0 && ok1 {
        if x - d0 * pow2_spec(p) <= (d0 + 1) * pow2_spec(p) - x {
            Option::Some(d0)
        } else {
            Option::Some(d0 + 1)
        }
    } else if ok0 {
        Option::Some(d0)
    } else if ok1 {
        Option::Some(d0 + 1)
    } else {
        Option::None
    }
}

/// The fewest fractional digits, from `k` up, that read back, with the digits;
/// searched up to 12 digits.
pub open spec fn shortest_from(m: int, p: nat, k: nat) -> (nat, int)
    decreases 12 - k,
{
    match digits_at(m, p, k) {
        Option::Some(d) => (k, d),
        Option::None => if k >= 12 {
            (k, m * pow10_spec(k) / (pow2_spec(p) as int))
        } else {
            shortest_from(m, p, k + 1)
        },
    }
}

/// Number of zeros that bring `len` digits up to `k`.
pub open spec fn pad_count(len: nat, k: nat) -> nat {
    if k > len { (k - len) as nat } else { 0 }
}

/// `k` digits: the decimal writing of `d`, with zeros in front.
pub open spec fn padded(d: nat, k: nat) -> Seq<char> {
    Seq::new(pad_count(decimal(d).len(), k), |i: int| '0') + decimal(d)
}

/// How `a as f32 / 255.0` prints.
pub open spec fn alpha_text_spec(a: u8) -> Seq<char> {
    if a == 0 {
        "0"@
    } else if a == 255 {
        "1"@
    } else {
        let m = alpha_mantissa(a as nat) as int;
        let p = alpha_shift(a as nat);
        let best = shortest_from(m, p, 1);
        "0."@ + padded(best.1 as nat, best.0)
    }
}

fn pow2_exec(n: u32) -> (r: u128)
    requires
        n <= 40,
    ensures
        r == pow2_spec(n as nat),
        r <= 0x100_0000_0000,
        r >= 1,
{
    proof {
        reveal_with_fuel(pow2_spec, 41);
        assert(pow2_spec(40) == 0x100_0000_0000);
    }
    let mut r: u128 = 1;
    let mut i: u32 = 0;
    while i < n
        invariant
            i <= n,
            n <= 40,
            r == pow2_spec(i as nat),
            pow2_spec(40) == 0x100_0000_0000,
        decreases n - i,
    {
        proof {
            lemma_pow2_mono((i + 1) as nat, 40);
        }
        r = r * 2;
        i = i + 1;
    }
    proof {
        lemma_pow2_mono(n as nat, 40);
    }
    r
}

proof fn lemma_pow2_mono(a: nat, b: nat)
    requires
        a <= b,
    ensures
        pow2_spec(a) <= pow2_spec(b),
        pow2_spec(a) >= 1,
    decreases b,
{
    if a < b {
        lemma_pow2_mono(a, (b - 1) as nat);
    } else if a > 0 {
        lemma_pow2_mono((a - 1) as nat, (a - 1) as nat);
    }
}

proof fn lemma_pow10_mono(a: nat, b: nat)
    requires
        a <= b,
    ensures
        pow10_spec(a) <= pow10_spec(b),
        pow10_spec(a) >= 1,
    decreases b,
{
    if a < b {
        lemma_pow10_mono(a, (b - 1) as nat);
    } else if a > 0 {
        lemma_pow10_mono((a - 1) as nat, (a - 1) as nat);
    }
}

fn pow10_exec(n: u32) -> (r: u128)
    requires
        n <= 12,
    ensures
        r == pow10_spec(n as nat),
        r <= 1_000_000_000_000,
{
    proof {
        reveal_with_fuel(pow10_spec, 13);
        assert(pow10_spec(12) == 1_000_000_000_000);
    }
    let mut r: u128 = 1;
    let mut i: u32 = 0;
    while i < n
        invariant
            i <= n,
            n <= 12,
            r == pow10_spec(i as nat),
            pow10_spec(12) == 1_000_000_000_000,
        decreases n - i,
    {
        proof {
            lemma_pow10_mono((i + 1) as nat, 12);
        }
        r = r * 10;
        i = i + 1;
    }
    proof {
        lemma_pow10_mono(n as nat, 12);
    }
    r
}

fn alpha_exponent_exec(a: u8) -> (e: u32)
    ensures
        e == alpha_exponent(a as nat),
{
    if a >= 128 { 1 }
    else if a >= 64 { 2 }
    else if a >= 32 { 3 }
    else if a >= 16 { 4 }
    else if a >= 8 { 5 }
    else if a >= 4 { 6 }
    else if a >= 2 { 7 }
    else { 8 }
}

fn reads_back_exec(m: u128, p: u32, k: u32, d: u128) -> (r: bool)
    requires
        m < 0x100_0000,
        p <= 31,
        k <= 12,
        d <= 0x10_0000_0000_0000,
    ensures
        r == reads_back(m as int, p as nat, k as nat, d as int),
{
    let two_p2 = pow2_exec(p + 2);
    let pw = pow10_exec(k);
    let half23 = pow2_exec(23);
    assert(d * two_p2 <= 0x10_0000_0000_0000 * 0x100_0000_0000) by (nonlinear_arith)
        requires d <= 0x10_0000_0000_0000, two_p2 <= 0x100_0000_0000;
    assert(4 * m * pw <= 4 * 0x100_0000 * 1_000_000_000_000) by (nonlinear_arith)
        requires m < 0x100_0000, pw <= 1_000_000_000_000;
    let l = d * two_p2;
    let r = 4 * m * pw;
    let below: u128 = if m > half23 { 2 } else { 1 };
    if l >= r {
        l - r < 2 * pw || (l - r == 2 * pw && m % 2 == 0)
    } else {
        r - l < below * pw || (r - l == below * pw && m % 2 == 0)
    }
}

fn digits_at_exec(m: u128, p: u32, k: u32) -> (r: Option<u128>)
    requires
        m < 0x100_0000,
        24 <= p <= 31,
        k <= 12,
    ensures
        r is None <==> digits_at(m as int, p as nat, k as nat) is None,
        r matches Option::Some(d) ==> digits_at(m as int, p as nat, k as nat) == Option::Some(d as int),
        r matches Option::Some(d) ==> d <= 0x10_0000_0000_0000,
{
    let pw = pow10_exec(k);
    let two_p = pow2_exec(p);
    proof {
        lemma_pow2_mono(24, p as nat);
        assert(pow2_spec(24) == 0x100_0000) by {
            reveal_with_fuel(pow2_spec, 25);
        }
    }
    assert(m * pw <= 0x100_0000 * 1_000_000_000_000) by (nonlinear_arith)
        requires m < 0x100_0000, pw <= 1_000_000_000_000;
    let x = m * pw;
    let d0 = x / two_p;
    assert(d0 <= x) by (nonlinear_arith) requires d0 == x / two_p, two_p >= 1;
    assert(d0 * two_p <= x) by (nonlinear_arith) requires d0 == x / two_p, two_p >= 1;
    assert((d0 + 1) * two_p > x) by (nonlinear_arith) requires d0 == x / two_p, two_p >= 1;
    assert((d0 + 1) * two_p <= x + two_p) by (nonlinear_arith) requires d0 * two_p <= x;
    assert(d0 * 0x100_0000 <= x) by (nonlinear_arith) requires d0 * two_p <= x, two_p >= 0x100_0000;
    assert(d0 <= 1_000_000_000_000);
    let ok0 = reads_back_exec(m, p, k, d0);
    let ok1 = reads_back_exec(m, p, k, d0 + 1);
    if ok0 && ok1 {
        if x - d0 * two_p <= (d0 + 1) * two_p - x {
            Some(d0)
        } else {
            Some(d0 + 1)
        }
    } else if ok0 {
        Some(d0)
    } else if ok1 {
        Some(d0 + 1)
    } else {
        None
    }
}

fn push_padded(s: &mut String, d: u64, k: u32)
    ensures
        final(s)@ == old(s)@ + padded(d as nat, k as nat),
{
    let digits = decimal_text(d);
    let n = digits.as_str().unicode_len();
    assert(n == decimal(d as nat).len());
    let mut i: usize = 0;
    let zeros: usize = if (k as usize) > n { k as usize - n } else { 0 };
    let ghost start = s@;
    while i < zeros
        invariant
            i <= zeros,
            zeros == pad_count(n as nat, k as nat),
            n == decimal(d as nat).len(),
            digits@ == decimal(d as nat),
            s@ == start + Seq::new(i as nat, |j: int| '0'),
        decreases zeros - i,
    {
        push_char(s, '0');
        assert(s@ =~= start + Seq::new((i + 1) as nat, |j: int| '0'));
        i = i + 1;
    }
    push_str(s, digits.as_str());
    assert(s@ =~= start + padded(d as nat, k as nat));
}

/// How `a as f32 / 255.0` prints: the shortest decimal that reads back as
/// that float, the nearest one when several are as short.
pub fn alpha_text(a: u8) -> (r: String)
    ensures
        r@ == alpha_text_spec(a),
{
    if a == 0 {
        return String::from_str("0");
    }
    if a == 255 {
        return String::from_str("1");
    }
    let e = alpha_exponent_exec(a);
    let p: u32 = 23 + e;
    let scale = pow2_exec(p);
    assert(a as u128 * scale <= 255 * 0x100_0000_0000) by (nonlinear_arith)
        requires a <= 255, scale <= 0x100_0000_0000;
    let n = a as u128 * scale;
    let m = n / 255 + if 2 * (n % 255) > 255 { 1 } else { 0 };
    proof {
        lemma_mantissa_bound(a as nat);
    }
    let mut k: u32 = 1;
    loop
        invariant
            1 <= k <= 12,
            1 <= a <= 254,
            m < 0x100_0000,
            24 <= p <= 31,
            m == alpha_mantissa(a as nat),
            p == alpha_shift(a as nat),
            shortest_from(m as int, p as nat, 1) == shortest_from(m as int, p as nat, k as nat),
        decreases 12 - k,
    {
        match digits_at_exec(m, p, k) {
            Some(d) => {
                assert(shortest_from(m as int, p as nat, k as nat) == (k as nat, d as int));
                let mut s = String::from_str("0.");
                push_padded(&mut s, d as u64, k);
                assert((d as u64) as nat == d as int);
                assert(s@ == "0."@ + padded(d as nat, k as nat));
                return s;
            },
            None => {
                if k >= 12 {
                    let pw = pow10_exec(k);
                    let two_p = pow2_exec(p);
                    assert(m * pw <= 0x100_0000 * 1_000_000_000_000) by (nonlinear_arith)
                        requires m < 0x100_0000, pw <= 1_000_000_000_000;
                    let x = m * pw;
                    let d = x / two_p;
                    assert(d <= x) by (nonlinear_arith) requires d == x / two_p, two_p >= 1;
                    let mut s = String::from_str("0.");
                    push_padded(&mut s, d as u64, k);
                    return s;
                }
                k = k + 1;
            },
        }
    }
}

/// The scale 2^e brings a into [255, 510).
proof fn lemma_alpha_scale(a: nat)
    requires
        1 <= a <= 254,
    ensures
        255 <= a * pow2_spec(alpha_exponent(a)) < 510,
{
    reveal_with_fuel(pow2_spec, 9);
    let t = pow2_spec(alpha_exponent(a));
    if a >= 128 {
        assert(t == 2);
        assert(255 <= a * t < 510) by (nonlinear_arith) requires t == 2, 128 <= a <= 254;
    } else if a >= 64 {
        assert(t == 4);
        assert(255 <= a * t < 510) by (nonlinear_arith) requires t == 4, 64 <= a <= 127;
    } else if a >= 32 {
        assert(t == 8);
        assert(255 <= a * t < 510) by (nonlinear_arith) requires t == 8, 32 <= a <= 63;
    } else if a >= 16 {
        assert(t == 16);
        assert(255 <= a * t < 510) by (nonlinear_arith) requires t == 16, 16 <= a <= 31;
    } else if a >= 8 {
        assert(t == 32);
        assert(255 <= a * t < 510) by (nonlinear_arith) requires t == 32, 8 <= a <= 15;
    } else if a >= 4 {
        assert(t == 64);
        assert(255 <= a * t < 510) by (nonlinear_arith) requires t == 64, 4 <= a <= 7;
    } else if a >= 2 {
        assert(t == 128);
        assert(255 <= a * t < 510) by (nonlinear_arith) requires t == 128, 2 <= a <= 3;
    } else {
        assert(t == 256);
        assert(255 <= a * t < 510) by (nonlinear_arith) requires t == 256, 1 <= a <= 1;
    }
}

proof fn lemma_pow2_23()
    ensures
        pow2_spec(23) == 0x80_0000,
        pow2_spec(24) == 0x100_0000,
{
    reveal_with_fuel(pow2_spec, 25);
}

/// The mantissa of a / 255 has 24 bits: 2^23 <= m < 2^24.
proof fn lemma_mantissa_bound(a: nat)
    requires
        1 <= a <= 254,
    ensures
        alpha_mantissa(a) < 0x100_0000,
        alpha_mantissa(a) >= 0x80_0000,
        24 <= alpha_shift(a) <= 31,
{
    let e = alpha_exponent(a);
    let p = alpha_shift(a);
    lemma_pow2_23();
    lemma_pow2_add(23, e);
    lemma_alpha_scale(a);
    let t = pow2_spec(e);
    let at = a * t;
    let n = a * pow2_spec(p);
    assert(n == 0x80_0000 * at) by (nonlinear_arith)
        requires n == a * pow2_spec(p), pow2_spec(p) == 0x80_0000 * t, at == a * t;
    assert(n / 255 >= 0x80_0000) by (nonlinear_arith)
        requires n == 0x80_0000 * at, at >= 255;
    assert(n <= 0x80_0000 * 509) by (nonlinear_arith)
        requires n == 0x80_0000 * at, at <= 509;
    assert(n / 255 <= 0xFF_FFFF) by (nonlinear_arith)
        requires n <= 0x80_0000 * 509;
    if n / 255 == 0xFF_FFFF {
        assert(n % 255 == n - 255 * 0xFF_FFFF) by (nonlinear_arith)
            requires n / 255 == 0xFF_FFFF;
        assert(2 * (n % 255) <= 255);
    }
}

proof fn lemma_pow2_add(a: nat, b: nat)
    ensures
        pow2_spec(a + b) == pow2_spec(a) * pow2_spec(b),
    decreases b,
{
    if b > 0 {
        let bm = (b - 1) as nat;
        lemma_pow2_add(a, bm);
        assert(pow2_spec(a + b) == 2 * pow2_spec(a + bm));
        assert(pow2_spec(b) == 2 * pow2_spec(bm));
        let x = pow2_spec(a);
        let y = pow2_spec(bm);
        assert(x * (2 * y) == 2 * (x * y)) by (nonlinear_arith);
        assert(pow2_spec(a) * pow2_spec(b) == x * (2 * y));
    } else {
        assert(pow2_spec(0) == 1);
        assert(a + b == a);
    }
}

/// `rgba(r,g,b,alpha)` with the components in decimal.
pub open spec fn rgba_text(r: u8, g: u8, b: u8, a: u8) -> Seq<char> {
    "rgba("@ + decimal(r as nat) + ","@ + decimal(g as nat) + ","@ + decimal(b as nat) + ","@
        + alpha_text_spec(a) + ")"@
}

impl Color {
    /// The SVG paint of the color.
    pub open spec fn svg_spec(self) -> Seq<char> {
        match self.rgba_spec() {
            Color::RGBA { r, g, b, a } => rgba_text(r, g, b, a),
            _ => Seq::empty(),
        }
    }

    /// The SVG paint of the color, `rgba(r,g,b,alpha)`.
    pub fn to_svg(&self) -> (r: Result<String, ()>)
        ensures
            r matches Ok(s) && s@ == self.svg_spec(),
    {
        let c = self.rgba();
        match c {
            Color::RGBA { r, g, b, a } => {
                let mut s = String::from_str("rgba(");
                push_decimal(&mut s, r as u64);
                push_str(&mut s, ",");
                push_decimal(&mut s, g as u64);
                push_str(&mut s, ",");
                push_decimal(&mut s, b as u64);
                push_str(&mut s, ",");
                let alpha = alpha_text(a);
                push_str(&mut s, alpha.as_str());
                push_str(&mut s, ")");
                assert(s@ =~= rgba_text(r, g, b, a));
                Ok(s)
            },
            _ => {
                assert(false);
                Ok(String::new())
            },
        }
    }
}

} // verus!

verus! {

// ---------------------------------------------------------------------------
// Laws
// ---------------------------------------------------------------------------

/// Converting to `RGBA` twice is converting once.
pub proof fn law_rgba_idempotent(c: Color)
    ensures
        c.rgba_spec().rgba_spec() == c.rgba_spec(),
{
}

/// An `RGB` color is written as the opaque `RGBA` color.
pub proof fn law_rgb_is_opaque_rgba(r: u8, g: u8, b: u8)
    ensures
        (Color::RGB { r, g, b }).svg_spec() == (Color::RGBA { r, g, b, a: 255 }).svg_spec(),
        (Color::RGB { r, g, b }).svg_spec() == rgba_text(r, g, b, 255),
{
}

proof fn lemma_pow_facts(p: nat)
    requires
        24 <= p <= 31,
    ensures
        1 <= pow2_spec(p) <= 0x8000_0000,
        pow2_spec(p + 2) == 4 * pow2_spec(p),
        pow10_spec(10) == 10_000_000_000,
{
    lemma_pow2_mono(p, 31);
    lemma_pow2_mono(0, p);
    assert(pow2_spec(31) == 0x8000_0000) by {
        reveal_with_fuel(pow2_spec, 32);
    }
    lemma_pow2_add(p, 2);
    assert(pow2_spec(2) == 4) by {
        reveal_with_fuel(pow2_spec, 3);
    }
    assert(pow10_spec(10) == 10_000_000_000) by {
        reveal_with_fuel(pow10_spec, 11);
    }
}

/// With ten fractional digits, the truncated decimal of a float `m / 2^p`
/// with 2^p <= 2^31 reads back as it.
proof fn lemma_truncated_reads_back(m: int, p: nat)
    requires
        m >= 0,
        24 <= p <= 31,
        1 <= pow2_spec(p) <= 0x8000_0000,
        pow2_spec(p + 2) == 4 * pow2_spec(p),
        pow10_spec(10) == 10_000_000_000,
    ensures
        reads_back(m, p, 10, (m * pow10_spec(10)) / (pow2_spec(p) as int)),
{
    let s = pow2_spec(p) as int;
    let x = m * pow10_spec(10);
    let d0 = x / s;
    assert(d0 * s <= x && x - d0 * s < s) by (nonlinear_arith)
        requires s >= 1, d0 == x / s, x >= 0;
    let l = d0 * pow2_spec(p + 2);
    let r = 4 * m * pow10_spec(10);
    assert(l == 4 * (d0 * s)) by (nonlinear_arith)
        requires l == d0 * pow2_spec(p + 2), pow2_spec(p + 2) == 4 * s;
    assert(r == 4 * x) by (nonlinear_arith)
        requires r == 4 * m * pow10_spec(10), x == m * pow10_spec(10);
    assert(r - l < 4 * s);
}

/// With ten fractional digits, the search for the shortest decimal of a / 255 succeeds.
proof fn lemma_ten_digits_read_back(a: nat)
    requires
        1 <= a <= 254,
    ensures
        digits_at(alpha_mantissa(a) as int, alpha_shift(a), 10) is Some,
{
    lemma_mantissa_bound(a);
    let m = alpha_mantissa(a) as int;
    let p = alpha_shift(a);
    lemma_pow_facts(p);
    lemma_truncated_reads_back(m, p);
}

/// Where the search from `k` ends: at the first digit count that reads back.
proof fn lemma_shortest_found(m: int, p: nat, k: nat)
    requires
        k <= 10,
        digits_at(m, p, 10) is Some,
    ensures
        k <= shortest_from(m, p, k).0 <= 10,
        digits_at(m, p, shortest_from(m, p, k).0) == Option::Some(shortest_from(m, p, k).1),
        forall|j: nat| k <= j < shortest_from(m, p, k).0 ==> #[trigger] digits_at(m, p, j) is None,
    decreases 10 - k,
{
    if digits_at(m, p, k) is None {
        lemma_shortest_found(m, p, k + 1);
    }
}

/// The opacity text of 1 <= a <= 254 is `0.` and the fewest digits (at most
/// ten) whose decimal reads back as the float a / 255, the nearest such decimal.
pub proof fn law_alpha_is_shortest(a: u8)
    requires
        1 <= a <= 254,
    ensures
        ({
            let m = alpha_mantissa(a as nat) as int;
            let p = alpha_shift(a as nat);
            let best = shortest_from(m, p, 1);
            &&& 1 <= best.0 <= 10
            &&& digits_at(m, p, best.0) == Option::Some(best.1)
            &&& forall|j: nat| 1 <= j < best.0 ==> #[trigger] digits_at(m, p, j) is None
            &&& alpha_text_spec(a) == "0."@ + padded(best.1 as nat, best.0)
        }),
{
    lemma_ten_digits_read_back(a as nat);
    lemma_shortest_found(alpha_mantissa(a as nat) as int, alpha_shift(a as nat), 1);
}

} // verus!
