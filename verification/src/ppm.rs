use vstd::prelude::*;
use crate::color::Rgb;
use crate::encode::{blank, covers, is_blank, ppm_text, write_ppm};

verus! {

/// A picture kept for plain-text export: `h` rows of `w` pixels.
pub struct Ppm {
    pub h: usize,
    pub w: usize,
    pub data: Vec<Vec<Rgb>>,
}

impl Ppm {
    /// Whether the pixel store holds every pixel of the declared size.
    pub open spec fn wf(&self) -> bool {
        covers(self.data@, self.w as nat, self.h as nat)
    }

    /// A black picture of `h` rows by `w` columns.
    pub fn new(h: usize, w: usize) -> (p: Self)
        ensures
            p.h == h,
            p.w == w,
            is_blank(p.data@, w as nat, h as nat),
            p.wf(),
    {
        let data = blank(h, w);
        Ppm { h, w, data }
    }

    /// The picture as a plain-text PPM file.
    pub fn export_ppm(&self) -> (out: Vec<u8>)
        requires
            self.wf(),
        ensures
            out@ == ppm_text(self.data@, self.w as nat, self.h as nat),
    {
        write_ppm(&self.data, self.w, self.h)
    }
}

} // verus!
