//! Colour encodings: hexadecimal colour strings and packed 0xRRGGBB words.
use vstd::prelude::*;

verus! {

/// Value of a hexadecimal digit, if `c` is one (either case).
pub open spec fn hex_digit_value(c: int) -> Option<int> {
    if 0x30 <= c <= 0x39 {
        Some(c - 0x30)
    } else if 0x61 <= c <= 0x66 {
        Some(c - 0x61 + 10)
    } else if 0x41 <= c <= 0x46 {
        Some(c - 0x41 + 10)
    } else {
        None
    }
}

/// Value of a hexadecimal digit; any other character counts as 0.
pub open spec fn lenient_digit(c: int) -> int {
    match hex_digit_value(c) {
        Some(v) => v,
        None => 0,
    }
}

/// The value of a hexadecimal digit character, or 0 for any other
/// character.
pub fn hex_char_to_u8(c: char) -> (v: u8)
    ensures
        v == lenient_digit(c as int),
{
    if '0' <= c && c <= '9' {
        (c as u8) - ('0' as u8)
    } else if 'a' <= c && c <= 'f' {
        (c as u8) - ('a' as u8) + 10
    } else if 'A' <= c && c <= 'F' {
        (c as u8) - ('A' as u8) + 10
    } else {
        0
    }
}

/// The byte written by two hexadecimal digit characters, high digit first;
/// a character that is not a digit counts as 0.
pub fn hex_pair_to_u8(high: char, low: char) -> (v: u8)
    ensures
        v == 16 * lenient_digit(high as int) + lenient_digit(low as int),
{
    let h = hex_char_to_u8(high);
    let l = hex_char_to_u8(low);
    assert((h << 4u8) | l == 16 * h + l) by (bit_vector)
        requires
            h < 16,
            l < 16,
    ;
    (h << 4) | l
}

/// Red, green and blue as bytes.
#[derive(Debug, Clone, Copy, PartialEq, Eq, Structural)]
pub struct Rgb8 {
    pub r: u8,
    pub g: u8,
    pub b: u8,
}

/// The colour written `RRGGBB` from byte `offset` on, each pair read
/// leniently.
pub open spec fn lenient_rgb(bytes: Seq<u8>, offset: int) -> Rgb8 {
    Rgb8 {
        r: (16 * lenient_digit(bytes[offset] as int) + lenient_digit(bytes[offset + 1] as int)) as u8,
        g: (16 * lenient_digit(bytes[offset + 2] as int) + lenient_digit(bytes[offset + 3] as int)) as u8,
        b: (16 * lenient_digit(bytes[offset + 4] as int) + lenient_digit(bytes[offset + 5] as int)) as u8,
    }
}

/// Reads a colour written `RRGGBB` or `#RRGGBB` without checking it: a
/// character that is not a hexadecimal digit counts as 0, and anything
/// after the six digits is ignored.
pub fn hex_rgb_lenient(bytes: &[u8]) -> (c: Rgb8)
    requires
        bytes@.len() >= 1,
        bytes@.len() >= (if bytes@[0] == 0x23 {
            7int
        } else {
            6int
        }),
    ensures
        c == lenient_rgb(bytes@, if bytes@[0] == 0x23 {
            1int
        } else {
            0int
        }),
{
    let offset: usize = if bytes[0] == 0x23 {
        1
    } else {
        0
    };
    let r = hex_pair_to_u8(bytes[offset] as char, bytes[offset + 1] as char);
    let g = hex_pair_to_u8(bytes[offset + 2] as char, bytes[offset + 3] as char);
    let b = hex_pair_to_u8(bytes[offset + 4] as char, bytes[offset + 5] as char);
    Rgb8 { r, g, b }
}

/// Why a hexadecimal colour string was refused.
#[derive(Debug, Clone, Copy, PartialEq, Eq, Structural)]
pub enum HexColorError {
    WrongLength,
    InvalidRed,
    InvalidGreen,
    InvalidBlue,
}

impl HexColorError {
    /// The message reported for this error.
    pub fn message(&self) -> (m: &'static str)
        ensures
            m@ == (match self {
                HexColorError::WrongLength => "Hex string should be 6 characters long (RRGGBB).",
                HexColorError::InvalidRed => "Invalid red component in hex",
                HexColorError::InvalidGreen => "Invalid green component in hex",
                HexColorError::InvalidBlue => "Invalid blue component in hex",
            })@,
    {
        match self {
            HexColorError::WrongLength => "Hex string should be 6 characters long (RRGGBB).",
            HexColorError::InvalidRed => "Invalid red component in hex",
            HexColorError::InvalidGreen => "Invalid green component in hex",
            HexColorError::InvalidBlue => "Invalid blue component in hex",
        }
    }
}

/// A two-character component read as an unsigned byte in base 16: an
/// optional `+` followed by hexadecimal digits.
pub open spec fn radix16_pair(b0: u8, b1: u8) -> Option<u8> {
    if b0 == 0x2b {
        match hex_digit_value(b1 as int) {
            Some(v) => Some(v as u8),
            None => None,
        }
    } else {
        match (hex_digit_value(b0 as int), hex_digit_value(b1 as int)) {
            (Some(h), Some(l)) => Some((16 * h + l) as u8),
            _ => None,
        }
    }
}

/// Number of leading `#` bytes.
pub open spec fn leading_hashes(bytes: Seq<u8>) -> int
    decreases bytes.len(),
{
    if bytes.len() > 0 && bytes[0] == 0x23 {
        1 + leading_hashes(bytes.subrange(1, bytes.len() as int))
    } else {
        0
    }
}

/// The leading `#` bytes lie within the bytes.
pub proof fn lemma_leading_hashes_bound(bytes: Seq<u8>)
    ensures
        0 <= leading_hashes(bytes) <= bytes.len(),
    decreases bytes.len(),
{
    if bytes.len() > 0 && bytes[0] == 0x23 {
        lemma_leading_hashes_bound(bytes.subrange(1, bytes.len() as int));
    }
}

/// A UTF-8 continuation byte: it never starts a character.
pub open spec fn is_continuation(b: u8) -> bool {
    0x80 <= b <= 0xbf
}

/// What reading the hexadecimal colour `bytes` gives: after any leading `#`
/// there must be exactly six bytes, read as three base-16 components
/// (red, green, blue).
pub open spec fn parse_hex_spec(bytes: Seq<u8>) -> Result<Rgb8, HexColorError> {
    let t = leading_hashes(bytes);
    let rest = bytes.subrange(t, bytes.len() as int);
    if rest.len() != 6 {
        Err(HexColorError::WrongLength)
    } else {
        match radix16_pair(rest[0], rest[1]) {
            None => Err(HexColorError::InvalidRed),
            Some(r) => match radix16_pair(rest[2], rest[3]) {
                None => Err(HexColorError::InvalidGreen),
                Some(g) => match radix16_pair(rest[4], rest[5]) {
                    None => Err(HexColorError::InvalidBlue),
                    Some(b) => Ok(Rgb8 { r, g, b }),
                },
            },
        }
    }
}

/// Value of a hexadecimal digit byte.
fn digit_value(b: u8) -> (v: Option<u8>)
    ensures
        v == (match hex_digit_value(b as int) {
            Some(x) => Some(x as u8),
            None => None::<u8>,
        }),
{
    if 0x30 <= b && b <= 0x39 {
        Some(b - 0x30)
    } else if 0x61 <= b && b <= 0x66 {
        Some(b - 0x61 + 10)
    } else if 0x41 <= b && b <= 0x46 {
        Some(b - 0x41 + 10)
    } else {
        None
    }
}

/// One component of a hexadecimal colour.
fn parse_component(b0: u8, b1: u8) -> (v: Option<u8>)
    ensures
        v == radix16_pair(b0, b1),
{
    if b0 == 0x2b {
        digit_value(b1)
    } else {
        match (digit_value(b0), digit_value(b1)) {
            (Some(h), Some(l)) => Some(16 * h + l),
            _ => None,
        }
    }
}

/// Reads a colour written `RRGGBB` or `#RRGGBB` (any number of leading `#`
/// is skipped), each component as an unsigned byte in base 16.
pub fn parse_hex_rgb(bytes: &[u8]) -> (r: Result<Rgb8, HexColorError>)
    requires
        ({
            let rest = bytes@.subrange(leading_hashes(bytes@), bytes@.len() as int);
            rest.len() == 6 ==> !is_continuation(rest[2]) && !is_continuation(rest[4])
        }),
    ensures
        r == parse_hex_spec(bytes@),
{
    let n = bytes.len();
    let mut t: usize = 0;
    assert(bytes@.subrange(0, n as int) == bytes@);
    while t < n && bytes[t] == 0x23
        invariant
            t <= n,
            n == bytes@.len(),
            leading_hashes(bytes@) == t + leading_hashes(bytes@.subrange(t as int, n as int)),
        decreases n - t,
    {
        proof {
            let s = bytes@.subrange(t as int, n as int);
            assert(s.subrange(1, s.len() as int) == bytes@.subrange(t + 1, n as int));
        }
        t = t + 1;
    }
    proof {
        let s = bytes@.subrange(t as int, n as int);
        assert(leading_hashes(s) == 0);
    }
    if n - t != 6 {
        return Err(HexColorError::WrongLength);
    }
    let r = match parse_component(bytes[t], bytes[t + 1]) {
        Some(v) => v,
        None => {
            return Err(HexColorError::InvalidRed);
        },
    };
    let g = match parse_component(bytes[t + 2], bytes[t + 3]) {
        Some(v) => v,
        None => {
            return Err(HexColorError::InvalidGreen);
        },
    };
    let b = match parse_component(bytes[t + 4], bytes[t + 5]) {
        Some(v) => v,
        None => {
            return Err(HexColorError::InvalidBlue);
        },
    };
    Ok(Rgb8 { r, g, b })
}

/// On a well-formed colour, six hexadecimal digits with or without one
/// leading `#`, the checked reading and the lenient one give the same
/// colour.
pub proof fn law_hex_parsers_agree(bytes: Seq<u8>)
    requires
        bytes.len() == 6 || (bytes.len() == 7 && bytes[0] == 0x23),
        forall|i: int|
            bytes.len() - 6 <= i < bytes.len() ==> #[trigger] hex_digit_value(bytes[i] as int) is Some,
    ensures
        parse_hex_spec(bytes) == Ok::<Rgb8, HexColorError>(
            lenient_rgb(bytes, if bytes.len() == 7 {
                1int
            } else {
                0int
            }),
        ),
{
    let off: int = bytes.len() - 6;
    let tail = bytes.subrange(1, bytes.len() as int);
    assert(hex_digit_value(bytes[off] as int) is Some);
    if off == 1 {
        assert(tail[0] == bytes[1]);
        assert(leading_hashes(tail.subrange(1, tail.len() as int)) >= 0) by {
            lemma_leading_hashes_bound(tail.subrange(1, tail.len() as int));
        }
        assert(leading_hashes(tail) == 0);
        assert(leading_hashes(bytes) == 1);
    } else {
        assert(leading_hashes(bytes) == 0);
    }
    let rest = bytes.subrange(off, bytes.len() as int);
    assert forall|i: int| 0 <= i < 6 implies rest[i] == bytes[off + i] && #[trigger] hex_digit_value(
        rest[i] as int,
    ) is Some by {
        assert(hex_digit_value(bytes[off + i] as int) is Some);
    }
}

/// The character that writes digit `v` (below 16) in base 16: `0`-`9`,
/// then `a`-`f`, or `A`-`F` when `upper`.
pub open spec fn hex_digit_char(v: int, upper: bool) -> u8 {
    if v < 10 {
        (0x30 + v) as u8
    } else if upper {
        (0x41 + v - 10) as u8
    } else {
        (0x61 + v - 10) as u8
    }
}

/// `RRGGBB` written with the given letter case.
pub open spec fn hex_text(c: Rgb8, upper: bool) -> Seq<u8> {
    seq![
        hex_digit_char(c.r as int / 16, upper),
        hex_digit_char(c.r as int % 16, upper),
        hex_digit_char(c.g as int / 16, upper),
        hex_digit_char(c.g as int % 16, upper),
        hex_digit_char(c.b as int / 16, upper),
        hex_digit_char(c.b as int % 16, upper),
    ]
}

/// Every base-16 digit, written in either case, reads back as its value,
/// and reading a colour written as `RRGGBB` or `#RRGGBB` gives the colour
/// back, with the checked reading and the lenient one alike.
pub proof fn law_hex_round_trip(c: Rgb8, upper: bool)
    ensures
        forall|v: int| 0 <= v < 16 ==> #[trigger] hex_digit_value(hex_digit_char(v, upper) as int) == Some(v),
        forall|v: int| 0 <= v < 16 ==> #[trigger] lenient_digit(hex_digit_char(v, upper) as int) == v,
        parse_hex_spec(hex_text(c, upper)) == Ok::<Rgb8, HexColorError>(c),
        parse_hex_spec(seq![0x23u8] + hex_text(c, upper)) == Ok::<Rgb8, HexColorError>(c),
        lenient_rgb(hex_text(c, upper), 0) == c,
        lenient_rgb(seq![0x23u8] + hex_text(c, upper), 1) == c,
{
    let t = hex_text(c, upper);
    let h = seq![0x23u8] + t;
    assert forall|v: int| 0 <= v < 16 implies #[trigger] hex_digit_value(hex_digit_char(v, upper) as int)
        == Some(v) by {}
    assert(hex_digit_value(t[0] as int) == Some(c.r as int / 16));
    assert(hex_digit_value(t[1] as int) == Some(c.r as int % 16));
    assert(hex_digit_value(t[2] as int) == Some(c.g as int / 16));
    assert(hex_digit_value(t[3] as int) == Some(c.g as int % 16));
    assert(hex_digit_value(t[4] as int) == Some(c.b as int / 16));
    assert(hex_digit_value(t[5] as int) == Some(c.b as int % 16));
    assert(leading_hashes(t) == 0);
    assert(t.subrange(0, 6) == t);
    assert(h.subrange(1, 7) == t);
    assert(leading_hashes(h) == 1);
    assert(h.subrange(1, 7) == t);
    assert(16 * (c.r as int / 16) + c.r as int % 16 == c.r);
    assert(16 * (c.g as int / 16) + c.g as int % 16 == c.g);
    assert(16 * (c.b as int / 16) + c.b as int % 16 == c.b);
    assert(h[1] == t[0] && h[2] == t[1] && h[3] == t[2] && h[4] == t[3] && h[5] == t[4] && h[6] == t[5]);
}

/// Packs three channels into a 0xRRGGBB word (each channel shifted to its
/// place and or-ed in).
pub fn pack_rgb(r: u32, g: u32, b: u32) -> (c: u32)
    ensures
        c == (r << 16u32) | (g << 8u32) | b,
        r < 256 && g < 256 && b < 256 ==> c == r * 65536 + g * 256 + b,
{
    let c = (r << 16) | (g << 8) | b;
    assert(r < 256 && g < 256 && b < 256 ==> (r << 16u32) | (g << 8u32) | b == r * 65536 + g * 256 + b) by (bit_vector);
    c
}

/// The red, green and blue bytes of a 0xRRGGBB word; higher bits are
/// ignored.
pub fn unpack_rgb(c: u32) -> (rgb: Rgb8)
    ensures
        rgb.r == (c / 65536) % 256,
        rgb.g == (c / 256) % 256,
        rgb.b == c % 256,
{
    assert(((c >> 16u32) & 0xffu32) == (c / 65536) % 256) by (bit_vector);
    assert(((c >> 8u32) & 0xffu32) == (c / 256) % 256) by (bit_vector);
    assert((c & 0xffu32) == c % 256) by (bit_vector);
    Rgb8 { r: ((c >> 16) & 0xff) as u8, g: ((c >> 8) & 0xff) as u8, b: (c & 0xff) as u8 }
}

/// Unpacking a packed colour gives back its channels, and packing the
/// channels of a word gives back its low 24 bits.
pub proof fn law_pack_unpack(r: u32, g: u32, b: u32, c: u32)
    requires
        r < 256,
        g < 256,
        b < 256,
    ensures
        ((r * 65536 + g * 256 + b) / 65536) % 256 == r,
        ((r * 65536 + g * 256 + b) / 256) % 256 == g,
        (r * 65536 + g * 256 + b) % 256 == b,
        ((c / 65536) % 256) * 65536 + ((c / 256) % 256) * 256 + c % 256 == c % 0x100_0000,
{
    assert(((r * 65536 + g * 256 + b) / 65536) % 256 == r) by (nonlinear_arith)
        requires
            r < 256,
            g < 256,
            b < 256,
    ;
    assert(((r * 65536 + g * 256 + b) / 256) % 256 == g) by (nonlinear_arith)
        requires
            r < 256,
            g < 256,
            b < 256,
    ;
    assert((r * 65536 + g * 256 + b) % 256 == b) by (nonlinear_arith)
        requires
            r < 256,
            g < 256,
            b < 256,
    ;
    assert(((c / 65536) % 256) * 65536 + ((c / 256) % 256) * 256 + c % 256 == c % 0x100_0000) by (bit_vector);
}

} // verus!
