use vstd::prelude::*;
use crate::vector::Vec3;

verus! {

/// A colour in linear light: the three components are red, green and blue.
pub type Color = Vec3;

/// A quantised pixel: one byte for each of red, green and blue.
#[derive(Clone, Copy, Debug, PartialEq, Eq, Structural)]
pub struct Rgb {
    pub r: u8,
    pub g: u8,
    pub b: u8,
}

impl Rgb {
    /// The pixel with the given channels.
    pub fn new(r: u8, g: u8, b: u8) -> (p: Self)
        ensures
            p == (Rgb { r, g, b }),
    {
        Rgb { r, g, b }
    }

    /// The three channels in the order red, green, blue.
    pub fn as_array(&self) -> (a: [u8; 3])
        ensures
            a@ == self.channels(),
    {
        let a = [self.r, self.g, self.b];
        assert(a@ =~= self.channels());
        a
    }

    /// The channels as a sequence: red, green, blue.
    pub open spec fn channels(&self) -> Seq<u8> {
        seq![self.r, self.g, self.b]
    }

    /// Black, the colour of a fresh picture.
    pub open spec fn black() -> Rgb {
        Rgb { r: 0, g: 0, b: 0 }
    }
}

impl Default for Rgb {
    /// Black.
    fn default() -> (p: Self)
        ensures
            p == Rgb::black(),
    {
        Rgb { r: 0, g: 0, b: 0 }
    }
}

} // verus!
