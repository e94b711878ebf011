use vstd::prelude::*;

verus! {

/// A pixel made of a fixed number of channels ("subpixels").
///
/// A pixel is stored in an image as its channels, one after the other. Every
/// implementation keeps the channels and the pixel in step: turning a pixel into
/// its channels and back gives the same pixel.
pub trait Pixel: Sized + Copy {
    type Subpixel: Copy;

    /// The number of channels of every pixel of this type.
    spec fn spec_channel_count() -> nat;

    /// The channels of a pixel, in storage order.
    spec fn spec_channels(self) -> Seq<Self::Subpixel>;

    /// The pixel whose channels are `s`.
    spec fn spec_from_channels(s: Seq<Self::Subpixel>) -> Self;

    fn channel_count() -> (n: usize)
        ensures
            n == Self::spec_channel_count(),
            n > 0,
    ;

    fn from_slice(s: &[Self::Subpixel]) -> (p: Self)
        requires
            s@.len() == Self::spec_channel_count(),
        ensures
            p == Self::spec_from_channels(s@),
    ;

    fn channel(&self, i: usize) -> (c: Self::Subpixel)
        requires
            i < Self::spec_channel_count(),
        ensures
            c == self.spec_channels()[i as int],
    ;

    /// The channel value of a blank image.
    fn zero_subpixel() -> Self::Subpixel;

    proof fn lemma_channel_count_positive()
        ensures
            Self::spec_channel_count() > 0,
    ;

    proof fn lemma_channels_round_trip(p: Self)
        ensures
            p.spec_channels().len() == Self::spec_channel_count(),
            Self::spec_from_channels(p.spec_channels()) == p,
    ;
}

/// An 8-bit red, green, blue and alpha pixel.
#[derive(Debug, Clone, Copy, PartialEq, Eq, Structural)]
pub struct RgbaPixel {
    pub r: u8,
    pub g: u8,
    pub b: u8,
    pub a: u8,
}

impl RgbaPixel {
    pub fn new(r: u8, g: u8, b: u8, a: u8) -> (p: Self)
        ensures
            p == (RgbaPixel { r, g, b, a }),
    {
        RgbaPixel { r, g, b, a }
    }
}

impl Pixel for RgbaPixel {
    type Subpixel = u8;

    open spec fn spec_channel_count() -> nat {
        4
    }

    open spec fn spec_channels(self) -> Seq<u8> {
        seq![self.r, self.g, self.b, self.a]
    }

    open spec fn spec_from_channels(s: Seq<u8>) -> Self {
        RgbaPixel { r: s[0], g: s[1], b: s[2], a: s[3] }
    }

    fn channel_count() -> (n: usize) {
        4
    }

    fn from_slice(s: &[u8]) -> (p: Self) {
        RgbaPixel { r: s[0], g: s[1], b: s[2], a: s[3] }
    }

    fn channel(&self, i: usize) -> (c: u8) {
        if i == 0 {
            self.r
        } else if i == 1 {
            self.g
        } else if i == 2 {
            self.b
        } else {
            self.a
        }
    }

    /// A blank channel is zero.
    fn zero_subpixel() -> (z: u8)
        ensures
            z == 0,
    {
        0
    }

    proof fn lemma_channel_count_positive() {
    }

    proof fn lemma_channels_round_trip(p: Self) {
    }
}

} // verus!
