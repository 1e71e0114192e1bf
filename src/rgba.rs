use crate::errors::{RgbaParseError, RgbaParseErrorKind};
use crate::text::chars_of;
use vstd::prelude::*;

verus! {

/// A color made of four 8-bit channels, in the order red, green, blue, alpha.
#[derive(Clone, Copy, Debug, Eq, Hash)]
pub struct Rgba(pub [u8; 4]);

impl PartialEq for Rgba {
    fn eq(&self, o: &Rgba) -> (r: bool)
        ensures
            r == (self.0@ == o.0@),
    {
        let r = self.0[0] == o.0[0] && self.0[1] == o.0[1] && self.0[2] == o.0[2] && self.0[3]
            == o.0[3];
        proof {
            if r {
                assert(self.0@ =~= o.0@);
            }
        }
        r
    }
}

impl vstd::std_specs::cmp::PartialEqSpecImpl for Rgba {
    open spec fn obeys_eq_spec() -> bool {
        true
    }

    open spec fn eq_spec(&self, o: &Rgba) -> bool {
        self.0@ == o.0@
    }
}

/// The color with the four given channels.
pub open spec fn rgba_of(r: u8, g: u8, b: u8, a: u8) -> Rgba {
    Rgba([r, g, b, a])
}

/// The value of four bytes read as a little-endian 32-bit integer.
pub open spec fn le_value(b0: u8, b1: u8, b2: u8, b3: u8) -> int {
    b0 + 256 * b1 + 65536 * b2 + 16777216 * b3
}

/// The four bytes of `v`, least significant first.
fn le_bytes(v: u32) -> (r: [u8; 4])
    ensures
        le_value(r[0], r[1], r[2], r[3]) == v,
{
    let b0 = (v % 256) as u8;
    let b1 = ((v / 256) % 256) as u8;
    let b2 = ((v / 65536) % 256) as u8;
    let b3 = (v / 16777216) as u8;
    assert(v as int == (v % 256) + 256 * ((v / 256) % 256) + 65536 * ((v / 65536) % 256)
        + 16777216 * (v / 16777216)) by (nonlinear_arith);
    [b0, b1, b2, b3]
}

/// Reads four bytes, least significant first, as one integer.
fn from_le(b0: u8, b1: u8, b2: u8, b3: u8) -> (r: u32)
    ensures
        r == le_value(b0, b1, b2, b3),
{
    (b0 as u32) + (b1 as u32) * 256 + (b2 as u32) * 65536 + (b3 as u32) * 16777216
}

/// The channel `c` scaled by the factor `f / 255`, rounded down.
pub open spec fn scaled_alpha(c: u8, f: u8) -> u8 {
    ((c as int * f as int) / 255) as u8
}

/// The value of a single hexadecimal digit, if `c` is one.
pub open spec fn hex_digit(c: char) -> Option<int> {
    if '0' <= c && c <= '9' {
        Some(c as int - '0' as int)
    } else if 'a' <= c && c <= 'f' {
        Some(c as int - 'a' as int + 10)
    } else if 'A' <= c && c <= 'F' {
        Some(c as int - 'A' as int + 10)
    } else {
        None
    }
}

/// Every character of `s` is a hexadecimal digit.
pub open spec fn all_hex(s: Seq<char>) -> bool {
    forall|i: int| 0 <= i < s.len() ==> (#[trigger] hex_digit(s[i])) is Some
}

/// The number that the hexadecimal digits `s` spell, most significant first.
pub open spec fn hex_value(s: Seq<char>) -> int
    decreases s.len(),
{
    if s.len() == 0 {
        0
    } else {
        hex_value(s.drop_last()) * 16 + hex_digit(s.last())->0
    }
}

/// Reads `s` as a base-16 unsigned 32-bit number: an optional `+`, then at least one
/// hexadecimal digit, and a value below 2^32.
pub open spec fn radix16_u32(s: Seq<char>) -> Option<u32> {
    let digits = if s.len() > 0 && s[0] == '+' {
        s.drop_first()
    } else {
        s
    };
    if digits.len() > 0 && all_hex(digits) && hex_value(digits) <= u32::MAX {
        Some(hex_value(digits) as u32)
    } else {
        None
    }
}

/// A 4-bit value repeated in both halves of a byte.
pub open spec fn nibble_pair(n: int) -> u8 {
    (n * 17) as u8
}

/// The color that ARGB bytes `v` stand for (alpha in the most significant byte).
pub open spec fn argb_color(v: int) -> Rgba {
    Rgba(
        [
            ((v / 65536) % 256) as u8,
            ((v / 256) % 256) as u8,
            (v % 256) as u8,
            ((v / 16777216) % 256) as u8,
        ],
    )
}

/// What parsing `s` as a color gives: `#rgb`, `#rrggbb` (opaque) or `#aarrggbb`.
pub open spec fn parse_spec(s: Seq<char>) -> Result<Rgba, RgbaParseError> {
    if s.len() == 0 || s[0] != '#' {
        Err(RgbaParseError { kind: RgbaParseErrorKind::Unrecognized })
    } else {
        match radix16_u32(s.drop_first()) {
            None => Err(RgbaParseError { kind: RgbaParseErrorKind::HexParse }),
            Some(c) => if s.len() == 4 {
                Ok(
                    Rgba(
                        [
                            nibble_pair((c as int / 256) % 16),
                            nibble_pair((c as int / 16) % 16),
                            nibble_pair(c as int % 16),
                            255,
                        ],
                    ),
                )
            } else if s.len() == 7 {
                Ok(argb_color(c as int % 16777216 + 0xff000000))
            } else {
                Ok(argb_color(c as int))
            },
        }
    }
}

fn hex_digit_exec(c: char) -> (r: Option<u32>)
    ensures
        r is Some <==> hex_digit(c) is Some,
        r is Some ==> r->0 == hex_digit(c)->0,
{
    if '0' <= c && c <= '9' {
        Some((c as u32) - ('0' as u32))
    } else if 'a' <= c && c <= 'f' {
        Some((c as u32) - ('a' as u32) + 10)
    } else if 'A' <= c && c <= 'F' {
        Some((c as u32) - ('A' as u32) + 10)
    } else {
        None
    }
}

proof fn lemma_hex_value_nonneg(s: Seq<char>)
    requires
        all_hex(s),
    ensures
        hex_value(s) >= 0,
    decreases s.len(),
{
    if s.len() > 0 {
        assert(hex_digit(s[s.len() - 1]) is Some);
        lemma_hex_value_nonneg(s.drop_last());
        assert(s.drop_last() =~= s.subrange(0, s.len() - 1));
    }
}

/// Reads `cs[start..]` as base-16 digits into a u32.
fn radix16_exec(cs: &Vec<char>, start: usize) -> (r: Option<u32>)
    requires
        start <= cs.len(),
    ensures
        r == radix16_u32(cs@.subrange(start as int, cs.len() as int)),
{
    let ghost s = cs@.subrange(start as int, cs.len() as int);
    let mut i = start;
    if i < cs.len() && cs[i] == '+' {
        i = i + 1;
    }
    let ghost digits = cs@.subrange(i as int, cs.len() as int);
    assert(digits =~= (if s.len() > 0 && s[0] == '+' { s.drop_first() } else { s }));
    if i == cs.len() {
        return None;
    }
    let mut acc: u64 = 0;
    let mut j = i;
    while j < cs.len()
        invariant
            i <= j <= cs.len(),
            digits == cs@.subrange(i as int, cs.len() as int),
            s == cs@.subrange(start as int, cs.len() as int),
            digits == (if s.len() > 0 && s[0] == '+' {
                s.drop_first()
            } else {
                s
            }),
            all_hex(cs@.subrange(i as int, j as int)),
            acc == hex_value(cs@.subrange(i as int, j as int)),
            acc <= u32::MAX,
        decreases cs.len() - j,
    {
        let d = hex_digit_exec(cs[j]);
        let ghost prefix = cs@.subrange(i as int, j as int);
        let ghost next = cs@.subrange(i as int, j + 1);
        assert(next.drop_last() =~= prefix);
        match d {
            None => {
                assert(!all_hex(digits)) by {
                    assert(digits[j - i] == cs@[j as int]);
                }
                assert(radix16_u32(s) is None);
                return None;
            },
            Some(v) => {
                let nacc = acc * 16 + (v as u64);
                assert(hex_value(next) == nacc);
                if nacc > 0xffff_ffff {
                    assert(all_hex(next)) by {
                        assert forall|k: int| 0 <= k < next.len() implies (#[trigger] hex_digit(
                            next[k],
                        )) is Some by {
                            if k < prefix.len() {
                                assert(next[k] == prefix[k]);
                            }
                        }
                    }
                    proof {
                        if all_hex(digits) {
                            lemma_hex_prefix_bound(digits, (j + 1 - i) as int);
                            assert(digits.subrange(0, (j + 1 - i) as int) =~= next);
                        }
                    }
                    assert(radix16_u32(s) is None);
                    return None;
                }
                acc = nacc;
                j = j + 1;
                assert(all_hex(next)) by {
                    assert forall|k: int| 0 <= k < next.len() implies (#[trigger] hex_digit(
                        next[k],
                    )) is Some by {
                        if k < prefix.len() {
                            assert(next[k] == prefix[k]);
                        }
                    }
                }
            },
        }
    }
    assert(cs@.subrange(i as int, j as int) =~= digits);
    Some(acc as u32)
}

/// A longer run of hex digits never has a smaller value than its prefix.
proof fn lemma_hex_prefix_bound(s: Seq<char>, n: int)
    requires
        0 <= n <= s.len(),
        all_hex(s),
    ensures
        hex_value(s) >= hex_value(s.subrange(0, n)),
    decreases s.len(),
{
    if n < s.len() {
        let t = s.drop_last();
        assert(all_hex(t)) by {
            assert forall|k: int| 0 <= k < t.len() implies (#[trigger] hex_digit(t[k])) is Some by {
                assert(t[k] == s[k]);
            }
        }
        lemma_hex_prefix_bound(t, n);
        assert(t.subrange(0, n) =~= s.subrange(0, n));
        lemma_hex_value_nonneg(t);
        assert(hex_digit(s[s.len() - 1]) is Some);
    } else {
        assert(s.subrange(0, n) =~= s);
    }
}

impl Rgba {
    /// Parses `#rgb`, `#rrggbb` (taken as opaque) or `#aarrggbb`.
    pub fn parse(s: &str) -> (r: Result<Rgba, RgbaParseError>)
        ensures
            r == parse_spec(s@),
    {
        let cs = chars_of(s);
        if cs.len() == 0 || cs[0] != '#' {
            return Err(RgbaParseError { kind: RgbaParseErrorKind::Unrecognized });
        }
        assert(cs@.subrange(1, cs@.len() as int) =~= s@.drop_first());
        match radix16_exec(&cs, 1) {
            None => Err(RgbaParseError { kind: RgbaParseErrorKind::HexParse }),
            Some(c) => {
                if cs.len() == 4 {
                    let b = (c & 0xf) as u8;
                    let g = ((c >> 4) & 0xf) as u8;
                    let r = ((c >> 8) & 0xf) as u8;
                    assert((c & 0xf) == c % 16) by (bit_vector);
                    assert(((c >> 4) & 0xf) == (c / 16) % 16) by (bit_vector);
                    assert(((c >> 8) & 0xf) == (c / 256) % 16) by (bit_vector);
                    Ok(Rgba([r * 17, g * 17, b * 17, 0xff]))
                } else if cs.len() == 7 {
                    let v = (c % 0x0100_0000) + 0xff00_0000;
                    Ok(Rgba::from_argb_u32(v))
                } else {
                    Ok(Rgba::from_argb_u32(c))
                }
            },
        }
    }

    /// Builds a color from a 32-bit ARGB value (alpha in the most significant byte).
    pub fn from_argb_u32(argb: u32) -> (r: Rgba)
        ensures
            r == argb_color(argb as int),
            le_value(r.0[2], r.0[1], r.0[0], r.0[3]) == argb,
    {
        let b = le_bytes(argb);
        let r = Rgba([b[2], b[1], b[0], b[3]]);
        proof {
            let v = argb as int;
            assert(v == b[0] + 256 * b[1] + 65536 * b[2] + 16777216 * b[3]);
            assert(b[0] == v % 256 && b[1] == (v / 256) % 256 && b[2] == (v / 65536) % 256 && b[3]
                == (v / 16777216) % 256) by (nonlinear_arith)
                requires
                    v == b[0] + 256 * b[1] + 65536 * b[2] + 16777216 * b[3],
                    0 <= b[0] < 256,
                    0 <= b[1] < 256,
                    0 <= b[2] < 256,
                    0 <= b[3] < 256,
            ;
            assert(r.0@ =~= argb_color(v).0@);
        }
        r
    }

    /// Builds a color from a 32-bit RGBA value (red in the most significant byte).
    pub fn from_rgba_u32(rgba: u32) -> (r: Rgba)
        ensures
            le_value(r.0[3], r.0[2], r.0[1], r.0[0]) == rgba,
    {
        let b = le_bytes(rgba);
        Rgba([b[3], b[2], b[1], b[0]])
    }

    /// Builds a color from the little-endian bytes of `v` (red in the least significant byte).
    pub fn from_le_u32(v: u32) -> (r: Rgba)
        ensures
            le_value(r.0[0], r.0[1], r.0[2], r.0[3]) == v,
    {
        Rgba(le_bytes(v))
    }

    /// The color as a 32-bit ARGB value.
    pub fn to_argb_u32(&self) -> (r: u32)
        ensures
            r == le_value(self.0[2], self.0[1], self.0[0], self.0[3]),
    {
        from_le(self.0[2], self.0[1], self.0[0], self.0[3])
    }

    /// The color as a 32-bit RGBA value.
    pub fn to_rgba_u32(&self) -> (r: u32)
        ensures
            r == le_value(self.0[3], self.0[2], self.0[1], self.0[0]),
    {
        from_le(self.0[3], self.0[2], self.0[1], self.0[0])
    }

    /// The color's bytes read as a little-endian 32-bit value.
    pub fn to_le_u32(&self) -> (r: u32)
        ensures
            r == le_value(self.0[0], self.0[1], self.0[2], self.0[3]),
    {
        from_le(self.0[0], self.0[1], self.0[2], self.0[3])
    }

    /// The same color with another alpha.
    pub fn with_alpha(&self, alpha: u8) -> (r: Rgba)
        ensures
            r == rgba_of(self.0[0], self.0[1], self.0[2], alpha),
    {
        Rgba([self.0[0], self.0[1], self.0[2], alpha])
    }

    /// The same color with its alpha scaled by `alpha_factor / 255`.
    pub fn relative_alpha(&self, alpha_factor: u8) -> (r: Rgba)
        ensures
            r == rgba_of(self.0[0], self.0[1], self.0[2], scaled_alpha(self.0[3], alpha_factor)),
    {
        assert(self.0[3] as int * alpha_factor as int <= 255 * 255) by (nonlinear_arith)
            requires
                alpha_factor <= 255,
                self.0[3] <= 255,
        ;
        let alpha = (self.0[3] as u32) * (alpha_factor as u32) / 255;
        Rgba([self.0[0], self.0[1], self.0[2], alpha as u8])
    }

    /// The same color with its alpha scaled by about `alpha_factor / 256`, rounded down.
    pub fn fast_relative_alpha(&self, alpha_factor: u8) -> (r: Rgba)
        ensures
            r == rgba_of(
                self.0[0],
                self.0[1],
                self.0[2],
                ((alpha_factor as int * self.0[3] as int) / 256) as u8,
            ),
    {
        assert(alpha_factor as int * self.0[3] as int <= 255 * 255) by (nonlinear_arith)
            requires
                alpha_factor <= 255,
                self.0[3] <= 255,
        ;
        let prod: u32 = (alpha_factor as u32) * (self.0[3] as u32);
        let alpha = prod >> 8;
        assert(prod >> 8 == prod / 256) by (bit_vector);
        Rgba([self.0[0], self.0[1], self.0[2], alpha as u8])
    }

    pub fn rgba(&self) -> (r: [u8; 4])
        ensures
            r == self.0,
    {
        self.0
    }

    pub fn rgb(&self) -> (r: [u8; 3])
        ensures
            r@ == seq![self.0[0], self.0[1], self.0[2]],
    {
        let r = [self.0[0], self.0[1], self.0[2]];
        assert(r@ =~= seq![self.0[0], self.0[1], self.0[2]]);
        r
    }

    pub fn red(&self) -> (r: u8)
        ensures
            r == self.0[0],
    {
        self.0[0]
    }

    pub fn green(&self) -> (r: u8)
        ensures
            r == self.0[1],
    {
        self.0[1]
    }

    pub fn blue(&self) -> (r: u8)
        ensures
            r == self.0[2],
    {
        self.0[2]
    }

    pub fn alpha(&self) -> (r: u8)
        ensures
            r == self.0[3],
    {
        self.0[3]
    }

    pub fn set_red(&mut self, v: u8)
        ensures
            *final(self) == rgba_of(v, old(self).0[1], old(self).0[2], old(self).0[3]),
    {
        self.0 = [v, self.0[1], self.0[2], self.0[3]];
    }

    pub fn set_green(&mut self, v: u8)
        ensures
            *final(self) == rgba_of(old(self).0[0], v, old(self).0[2], old(self).0[3]),
    {
        self.0 = [self.0[0], v, self.0[2], self.0[3]];
    }

    pub fn set_blue(&mut self, v: u8)
        ensures
            *final(self) == rgba_of(old(self).0[0], old(self).0[1], v, old(self).0[3]),
    {
        self.0 = [self.0[0], self.0[1], v, self.0[3]];
    }

    pub fn set_alpha(&mut self, v: u8)
        ensures
            *final(self) == rgba_of(old(self).0[0], old(self).0[1], old(self).0[2], v),
    {
        self.0 = [self.0[0], self.0[1], self.0[2], v];
    }
}

impl std::str::FromStr for Rgba {
    type Err = RgbaParseError;

    fn from_str(s: &str) -> Result<Rgba, RgbaParseError> {
        Rgba::parse(s)
    }
}

} // verus!
