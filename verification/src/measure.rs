//! Lengths in points (positions, sizes, font sizes).
//!
//! A deck stores every length as a single-precision IEEE-754 number. The
//! library keeps that number's exact bit pattern, so that a deck read,
//! edited and written back keeps every length bit for bit, and alongside it
//! the number's shortest decimal text, which is what messages show.
use vstd::prelude::*;

verus! {

/// A length in points: the bit pattern of an IEEE-754 single, and its
/// shortest round-tripping decimal text.
#[derive(Debug, Clone, PartialEq)]
pub struct Measure {
    pub bits: u32,
    pub shown: String,
}

/// Whether the bit pattern encodes a NaN.
pub open spec fn is_nan_bits(bits: u32) -> bool {
    (bits & 0x7f80_0000u32) == 0x7f80_0000u32 && (bits & 0x007f_ffffu32) != 0
}

/// Whether the bit pattern encodes +0 or -0.
pub open spec fn is_zero_bits(bits: u32) -> bool {
    (bits & 0x7fff_ffffu32) == 0
}

/// Whether the encoded number compares `< 0.0`: a set sign bit, and
/// neither a zero nor a NaN.
pub open spec fn is_negative_bits(bits: u32) -> bool {
    (bits >> 31u32) == 1 && !is_zero_bits(bits) && !is_nan_bits(bits)
}

/// Whether the encoded number compares `<= 0.0`.
pub open spec fn is_non_positive_bits(bits: u32) -> bool {
    is_negative_bits(bits) || is_zero_bits(bits)
}

impl Measure {
    /// A length from its bit pattern and its decimal text.
    pub fn new(bits: u32, shown: String) -> (m: Measure)
        ensures
            m.bits == bits,
            m.shown == shown,
    {
        Measure { bits, shown }
    }

    /// The same length.
    pub fn copy(&self) -> (m: Measure)
        ensures
            m == *self,
    {
        Measure { bits: self.bits, shown: self.shown.clone() }
    }

    /// Whether the length compares `< 0.0`.
    pub fn is_negative(&self) -> (r: bool)
        ensures
            r == is_negative_bits(self.bits),
    {
        let b = self.bits;
        (b >> 31u32) == 1 && (b & 0x7fff_ffffu32) != 0 && !((b & 0x7f80_0000u32) == 0x7f80_0000u32
            && (b & 0x007f_ffffu32) != 0)
    }

    /// Whether the length compares `<= 0.0`.
    pub fn is_non_positive(&self) -> (r: bool)
        ensures
            r == is_non_positive_bits(self.bits),
    {
        self.is_negative() || (self.bits & 0x7fff_ffffu32) == 0
    }
}

/// The length `960` (points).
pub fn pt_960() -> (m: Measure)
    ensures
        m.bits == 0x4470_0000u32,
        m.shown@ == "960"@,
{
    Measure::new(0x4470_0000u32, String::from_str("960"))
}

/// The length `540`.
pub fn pt_540() -> (m: Measure)
    ensures
        m.bits == 0x4407_0000u32,
        m.shown@ == "540"@,
{
    Measure::new(0x4407_0000u32, String::from_str("540"))
}

/// The length `24`.
pub fn pt_24() -> (m: Measure)
    ensures
        m.bits == 0x41c0_0000u32,
        m.shown@ == "24"@,
{
    Measure::new(0x41c0_0000u32, String::from_str("24"))
}

/// The length `100`.
pub fn pt_100() -> (m: Measure)
    ensures
        m.bits == 0x42c8_0000u32,
        m.shown@ == "100"@,
{
    Measure::new(0x42c8_0000u32, String::from_str("100"))
}

/// The length `200`.
pub fn pt_200() -> (m: Measure)
    ensures
        m.bits == 0x4348_0000u32,
        m.shown@ == "200"@,
{
    Measure::new(0x4348_0000u32, String::from_str("200"))
}

/// The length `500`.
pub fn pt_500() -> (m: Measure)
    ensures
        m.bits == 0x43fa_0000u32,
        m.shown@ == "500"@,
{
    Measure::new(0x43fa_0000u32, String::from_str("500"))
}

/// The length `600`.
pub fn pt_600() -> (m: Measure)
    ensures
        m.bits == 0x4416_0000u32,
        m.shown@ == "600"@,
{
    Measure::new(0x4416_0000u32, String::from_str("600"))
}

} // verus!
