//! Colours, their reduction to eight levels per channel, and the palette index of a colour.

use vstd::prelude::*;

verus! {

/// An exact colour: three 8-bit channel intensities.
///
/// Colours are ordered by the tuple `(r, g, b)`.
#[derive(Copy, Clone, Debug, PartialEq, Eq, Structural, PartialOrd, Ord, Hash)]
pub struct RGB {
    pub r: u8,
    pub g: u8,
    pub b: u8,
}

/// A channel value truncated to the nearest multiple of 32 below it.
pub open spec fn round_channel(c: u8) -> u8 {
    ((c / 32) * 32) as u8
}

/// The palette index of a colour whose three channels add up to `sum`: the darkest
/// quarter of the range gets 3, the lightest gets 0.
pub open spec fn luminance_index(sum: int) -> u8 {
    if sum <= 191 {
        3
    } else if sum <= 382 {
        2
    } else if sum <= 573 {
        1
    } else {
        0
    }
}

impl RGB {
    /// The colour with every channel truncated to a multiple of 32.
    pub open spec fn rounded(self) -> RGB {
        RGB { r: round_channel(self.r), g: round_channel(self.g), b: round_channel(self.b) }
    }

    /// Whether every channel is a multiple of 32.
    pub open spec fn is_rounded(self) -> bool {
        self.r % 32 == 0 && self.g % 32 == 0 && self.b % 32 == 0
    }

    /// The sum of the three channels, between 0 and 765.
    pub open spec fn channel_sum(self) -> int {
        self.r + self.g + self.b
    }

    /// The position of the colour in the order of all colours: the tuple `(r, g, b)`
    /// read as a three-digit number in base 256.
    pub open spec fn rank(self) -> int {
        self.r * 65536 + self.g * 256 + self.b
    }

    /// The palette index of the colour under the luminance policy.
    pub open spec fn luminance_number(self) -> u8 {
        luminance_index(self.channel_sum())
    }

    /// Whether `self` comes strictly before `other` in the order by `(r, g, b)`.
    pub open spec fn precedes(self, other: RGB) -> bool {
        self.rank() < other.rank()
    }

    /// Truncates each channel to a multiple of 32, which leaves eight levels per channel.
    pub fn round(&self) -> (res: RGB)
        ensures
            res == self.rounded(),
            res.is_rounded(),
    {
        RGB { r: (self.r / 32) * 32, g: (self.g / 32) * 32, b: (self.b / 32) * 32 }
    }

    /// Whether `self` comes strictly before `other` in the order by `(r, g, b)`.
    pub fn is_before(&self, other: &RGB) -> (res: bool)
        ensures
            res == self.precedes(*other),
    {
        self.r < other.r || (self.r == other.r && (self.g < other.g || (self.g == other.g && self.b
            < other.b)))
    }
}

/// The palette index of a colour under the luminance policy: a function of the sum of
/// its channels alone.
pub fn map_2bit(rgb: &RGB) -> (res: u8)
    ensures
        res == rgb.luminance_number(),
        res <= 3,
{
    let sum: u16 = rgb.r as u16 + rgb.g as u16 + rgb.b as u16;
    if sum <= 191 {
        3
    } else if sum > 191 && sum <= 382 {
        2
    } else if sum > 382 && sum <= 573 {
        1
    } else {
        0
    }
}

/// Rounding is idempotent: a rounded colour is left unchanged by rounding it again.
pub proof fn lemma_round_idempotent(c: RGB)
    ensures
        c.rounded().rounded() == c.rounded(),
        c.rounded().is_rounded(),
{
}

/// Two colours whose channels add up to the same sum get the same palette index,
/// whether or not they are rounded.
pub proof fn lemma_equal_sums_same_index(a: RGB, b: RGB)
    requires
        a.channel_sum() == b.channel_sum(),
    ensures
        a.luminance_number() == b.luminance_number(),
{
}

/// Two colours are equal exactly when they have the same rank, so the order by rank is
/// a total order on colours.
pub proof fn lemma_rank_injective(a: RGB, b: RGB)
    ensures
        a.rank() == b.rank() <==> a == b,
        0 <= a.rank() < 16777216,
{
}

} // verus!
