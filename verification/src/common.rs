use vstd::prelude::*;

verus! {

/// A pixel as three channel bytes: red, green, blue.
#[derive(Clone, Copy, Debug, PartialEq, Eq, Structural)]
pub struct RGB(pub u8, pub u8, pub u8);

impl RGB {
    /// The red channel.
    pub fn r(&self) -> (v: u8)
        ensures
            v == self.0,
    {
        self.0
    }

    /// The green channel.
    pub fn g(&self) -> (v: u8)
        ensures
            v == self.1,
    {
        self.1
    }

    /// The blue channel.
    pub fn b(&self) -> (v: u8)
        ensures
            v == self.2,
    {
        self.2
    }

    /// The three channels in the order red, green, blue.
    pub fn to_slice(&self) -> (a: [u8; 3])
        ensures
            a@ == seq![self.0, self.1, self.2],
    {
        let a = [self.0, self.1, self.2];
        assert(a@ =~= seq![self.0, self.1, self.2]);
        a
    }
}

impl Default for RGB {
    /// Black.
    fn default() -> (p: Self)
        ensures
            p == RGB(0, 0, 0),
    {
        RGB(0, 0, 0)
    }
}

} // verus!
