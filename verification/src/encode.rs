//! The byte layouts of a picture: plain-text PPM and packed RGB.

use vstd::prelude::*;
use crate::color::Rgb;

verus! {

/// The decimal digits of `n` in ASCII, most significant first, without
/// leading zeros (`0` is the single digit `0`).
pub open spec fn decimal(n: nat) -> Seq<u8>
    decreases n,
{
    if n < 10 {
        seq![(48 + n) as u8]
    } else {
        decimal(n / 10).push((48 + n % 10) as u8)
    }
}

/// One line of a PPM body: the three channels in decimal, separated by single
/// spaces and closed by a line feed.
pub open spec fn pixel_line(p: Rgb) -> Seq<u8> {
    decimal(p.r as nat) + seq![32u8] + decimal(p.g as nat) + seq![32u8] + decimal(p.b as nat)
        + seq![10u8]
}

/// The PPM lines of the first `w` pixels of a row.
pub open spec fn row_text(row: Seq<Rgb>, w: nat) -> Seq<u8>
    decreases w,
{
    if w == 0 {
        Seq::empty()
    } else {
        row_text(row, (w - 1) as nat) + pixel_line(row[w - 1])
    }
}

/// The PPM lines of the first `h` rows, `w` pixels of each, top row first.
pub open spec fn body_text(data: Seq<Vec<Rgb>>, w: nat, h: nat) -> Seq<u8>
    decreases h,
{
    if h == 0 {
        Seq::empty()
    } else {
        body_text(data, w, (h - 1) as nat) + row_text(data[h - 1]@, w)
    }
}

/// The PPM header: the magic of the plain-text format, then width and height on one line, then the
/// channel maximum 255, each line closed by a line feed.
pub open spec fn header_text(w: nat, h: nat) -> Seq<u8> {
    seq![80u8, 51u8, 10u8] + decimal(w) + seq![32u8] + decimal(h) + seq![10u8, 50u8, 53u8, 53u8, 10u8]
}

/// A whole plain-text PPM file of `h` rows by `w` columns.
pub open spec fn ppm_text(data: Seq<Vec<Rgb>>, w: nat, h: nat) -> Seq<u8> {
    header_text(w, h) + body_text(data, w, h)
}

/// The packed bytes of the first `w` pixels of a row, three per pixel.
pub open spec fn row_bytes(row: Seq<Rgb>, w: nat) -> Seq<u8>
    decreases w,
{
    if w == 0 {
        Seq::empty()
    } else {
        row_bytes(row, (w - 1) as nat) + row[w - 1].channels()
    }
}

/// The packed bytes of the first `h` rows, row by row from the top.
pub open spec fn image_bytes(data: Seq<Vec<Rgb>>, w: nat, h: nat) -> Seq<u8>
    decreases h,
{
    if h == 0 {
        Seq::empty()
    } else {
        image_bytes(data, w, (h - 1) as nat) + row_bytes(data[h - 1]@, w)
    }
}

/// Whether `data` holds at least `h` rows of at least `w` pixels each.
pub open spec fn covers(data: Seq<Vec<Rgb>>, w: nat, h: nat) -> bool {
    &&& data.len() >= h
    &&& forall|i: int| 0 <= i < h ==> (#[trigger] data[i])@.len() >= w
}

/// A packed row holds three bytes for each pixel.
pub proof fn lemma_row_bytes_len(row: Seq<Rgb>, w: nat)
    ensures
        row_bytes(row, w).len() == 3 * w,
    decreases w,
{
    if w > 0 {
        lemma_row_bytes_len(row, (w - 1) as nat);
    }
}

/// A packed picture holds three bytes for each pixel.
pub proof fn lemma_image_bytes_len(data: Seq<Vec<Rgb>>, w: nat, h: nat)
    ensures
        image_bytes(data, w, h).len() == 3 * w * h,
    decreases h,
{
    if h > 0 {
        let g = (h - 1) as nat;
        lemma_image_bytes_len(data, w, g);
        lemma_row_bytes_len(data[h - 1]@, w);
        assert(3 * w * g + 3 * w == 3 * w * h) by (nonlinear_arith)
            requires
                g + 1 == h,
        ;
    } else {
        assert(3 * w * h == 0) by (nonlinear_arith)
            requires
                h == 0,
        ;
    }
}

/// Appends the decimal digits of `n` to `out`.
pub fn push_decimal(out: &mut Vec<u8>, n: u64)
    ensures
        final(out)@ == old(out)@ + decimal(n as nat),
    decreases n,
{
    if n >= 10 {
        push_decimal(out, n / 10);
    }
    let d: u8 = (48 + n % 10) as u8;
    out.push(d);
    proof {
        if n < 10 {
            assert(final(out)@ =~= old(out)@ + decimal(n as nat));
        } else {
            assert(final(out)@ =~= old(out)@ + decimal(n as nat));
        }
    }
}

/// Appends the PPM line of one pixel to `out`.
pub fn push_pixel_line(out: &mut Vec<u8>, p: Rgb)
    ensures
        final(out)@ == old(out)@ + pixel_line(p),
{
    push_decimal(out, p.r as u64);
    out.push(32u8);
    push_decimal(out, p.g as u64);
    out.push(32u8);
    push_decimal(out, p.b as u64);
    out.push(10u8);
    assert(out@ =~= old(out)@ + pixel_line(p));
}

/// The plain-text PPM file of the first `h` rows by `w` columns of `data`.
pub fn write_ppm(data: &Vec<Vec<Rgb>>, w: usize, h: usize) -> (out: Vec<u8>)
    requires
        covers(data@, w as nat, h as nat),
    ensures
        out@ == ppm_text(data@, w as nat, h as nat),
{
    let mut out: Vec<u8> = Vec::new();
    out.push(80u8);
    out.push(51u8);
    out.push(10u8);
    push_decimal(&mut out, w as u64);
    out.push(32u8);
    push_decimal(&mut out, h as u64);
    out.push(10u8);
    out.push(50u8);
    out.push(53u8);
    out.push(53u8);
    out.push(10u8);
    assert(out@ =~= header_text(w as nat, h as nat));
    let mut i: usize = 0;
    while i < h
        invariant
            i <= h,
            covers(data@, w as nat, h as nat),
            out@ == header_text(w as nat, h as nat) + body_text(data@, w as nat, i as nat),
        decreases h - i,
    {
        let ghost before = out@;
        let row = &data[i];
        let mut j: usize = 0;
        while j < w
            invariant
                j <= w,
                row@.len() >= w,
                out@ == before + row_text(row@, j as nat),
            decreases w - j,
        {
            push_pixel_line(&mut out, row[j]);
            j += 1;
            assert(out@ =~= before + row_text(row@, j as nat));
        }
        i += 1;
        assert(out@ =~= header_text(w as nat, h as nat) + body_text(data@, w as nat, i as nat));
    }
    out
}

/// The packed RGB bytes of the first `h` rows by `w` columns of `data`.
pub fn pack_rgb(data: &Vec<Vec<Rgb>>, w: usize, h: usize) -> (out: Vec<u8>)
    requires
        covers(data@, w as nat, h as nat),
    ensures
        out@ == image_bytes(data@, w as nat, h as nat),
        out@.len() == 3 * w * h,
{
    let mut out: Vec<u8> = Vec::new();
    let mut i: usize = 0;
    while i < h
        invariant
            i <= h,
            covers(data@, w as nat, h as nat),
            out@ == image_bytes(data@, w as nat, i as nat),
        decreases h - i,
    {
        let ghost before = out@;
        let row = &data[i];
        let mut j: usize = 0;
        while j < w
            invariant
                j <= w,
                row@.len() >= w,
                out@ == before + row_bytes(row@, j as nat),
            decreases w - j,
        {
            let p = row[j];
            out.push(p.r);
            out.push(p.g);
            out.push(p.b);
            j += 1;
            assert(out@ =~= before + row_bytes(row@, j as nat));
        }
        i += 1;
        assert(out@ =~= image_bytes(data@, w as nat, i as nat));
    }
    proof {
        lemma_image_bytes_len(data@, w as nat, h as nat);
    }
    out
}

/// A picture of `h` rows by `w` columns, every pixel black.
pub fn blank(h: usize, w: usize) -> (data: Vec<Vec<Rgb>>)
    ensures
        is_blank(data@, w as nat, h as nat),
{
    let mut data: Vec<Vec<Rgb>> = Vec::new();
    let mut i: usize = 0;
    while i < h
        invariant
            i <= h,
            is_blank(data@, w as nat, i as nat),
        decreases h - i,
    {
        let mut row: Vec<Rgb> = Vec::new();
        let mut j: usize = 0;
        while j < w
            invariant
                j <= w,
                row@.len() == j,
                forall|k: int| 0 <= k < j ==> row@[k] == Rgb::black(),
            decreases w - j,
        {
            row.push(Rgb::new(0, 0, 0));
            j += 1;
        }
        data.push(row);
        i += 1;
    }
    data
}

/// Whether `data` is exactly `h` rows of exactly `w` black pixels.
pub open spec fn is_blank(data: Seq<Vec<Rgb>>, w: nat, h: nat) -> bool {
    &&& data.len() == h
    &&& forall|i: int| 0 <= i < h ==> (#[trigger] data[i])@.len() == w
    &&& forall|i: int, j: int| 0 <= i < h && 0 <= j < w ==> (#[trigger] data[i]@[j]) == Rgb::black()
}

} // verus!
