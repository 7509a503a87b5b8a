use vstd::prelude::*;

use crate::canvas::{Canvas, CanvasView};

verus! {

/// A pixel with each channel quantized to 0..=255, as the PPM text holds it.
#[derive(Debug, Clone, Copy, PartialEq, Eq, Structural)]
pub struct Rgb8 {
    pub r: u8,
    pub g: u8,
    pub b: u8,
}

pub const SPACE: u8 = 32;

pub const NEWLINE: u8 = 10;

/// ASCII decimal digits of `n`, without leading zeros.
pub open spec fn decimal(n: nat) -> Seq<u8>
    decreases n,
{
    if n < 10 {
        seq![(48 + n) as u8]
    } else {
        decimal(n / 10) + seq![(48 + n % 10) as u8]
    }
}

/// A pixel as "r g b".
pub open spec fn rgb_text(c: Rgb8) -> Seq<u8> {
    decimal(c.r as nat) + seq![SPACE] + decimal(c.g as nat) + seq![SPACE] + decimal(c.b as nat)
}

/// Pixels as their "r g b" texts, one space between two of them.
pub open spec fn row_text(px: Seq<Rgb8>) -> Seq<u8>
    decreases px.len(),
{
    if px.len() == 0 {
        seq![]
    } else if px.len() == 1 {
        rgb_text(px[0])
    } else {
        row_text(px.drop_last()) + seq![SPACE] + rgb_text(px.last())
    }
}

/// "P3", the size as "width height", and the largest channel value "255",
/// on three lines.
pub open spec fn header(width: nat, height: nat) -> Seq<u8> {
    seq![80u8, 51u8, NEWLINE] + decimal(width) + seq![SPACE] + decimal(height) + seq![
        NEWLINE,
        50u8,
        53u8,
        53u8,
    ]
}

/// The first `k` rows of a grid of the given width, each after a line break.
pub open spec fn rows_text(pixels: Seq<Rgb8>, width: nat, k: nat) -> Seq<u8>
    decreases k,
{
    if k == 0 {
        seq![]
    } else {
        rows_text(pixels, width, (k - 1) as nat) + seq![NEWLINE] + row_text(
            pixels.subrange((k - 1) * width, (k * width) as int),
        )
    }
}

/// The plain ("P3") PPM text of a canvas: the header, then one line per row.
/// Nothing follows the last row; a canvas without columns has only the
/// header, as its empty rows would be trailing whitespace.
pub open spec fn ppm_text(c: CanvasView<Rgb8>) -> Seq<u8> {
    if c.width == 0 {
        header(c.width, c.height)
    } else {
        header(c.width, c.height) + rows_text(c.pixels, c.width, c.height)
    }
}

/// The PPM text depends on the size and the pixels alone: encoding the same
/// pixel data twice gives the same bytes, whatever the backgrounds.
pub proof fn lemma_ppm_deterministic(a: CanvasView<Rgb8>, b: CanvasView<Rgb8>)
    requires
        a.width == b.width,
        a.height == b.height,
        a.pixels == b.pixels,
    ensures
        ppm_text(a) == ppm_text(b),
{
}

fn push_decimal(out: &mut Vec<u8>, n: usize)
    ensures
        final(out)@ == old(out)@ + decimal(n as nat),
    decreases n,
{
    if n >= 10 {
        push_decimal(out, n / 10);
    }
    let d: u8 = (n % 10) as u8;
    out.push(48 + d);
    assert(final(out)@ =~= old(out)@ + decimal(n as nat));
}

fn push_rgb(out: &mut Vec<u8>, c: Rgb8)
    ensures
        final(out)@ == old(out)@ + rgb_text(c),
{
    push_decimal(out, c.r as usize);
    out.push(SPACE);
    push_decimal(out, c.g as usize);
    out.push(SPACE);
    push_decimal(out, c.b as usize);
    assert(final(out)@ =~= old(out)@ + rgb_text(c));
}

fn push_row(out: &mut Vec<u8>, px: &Vec<Rgb8>, start: usize, width: usize)
    requires
        start + width <= px@.len(),
        start + width <= usize::MAX,
    ensures
        final(out)@ == old(out)@ + row_text(px@.subrange(start as int, start + width)),
{
    let mut i: usize = 0;
    while i < width
        invariant
            i <= width,
            start + width <= px@.len(),
            start + width <= usize::MAX,
            out@ == old(out)@ + row_text(px@.subrange(start as int, start + i)),
        decreases width - i,
    {
        let ghost before = out@;
        let ghost sub = px@.subrange(start as int, start + i + 1);
        assert(sub.drop_last() =~= px@.subrange(start as int, start + i));
        if i > 0 {
            out.push(SPACE);
        }
        push_rgb(out, px[start + i]);
        i += 1;
        proof {
            if i == 1 {
                assert(row_text(px@.subrange(start as int, start as int)) =~= seq![]);
            }
        }
        assert(out@ =~= old(out)@ + row_text(sub));
    }
}

impl Canvas<Rgb8> {
    /// The canvas as plain ("P3") PPM text.
    pub fn to_ppm(&self) -> (r: Vec<u8>)
        requires
            self.wf(),
        ensures
            r@ == ppm_text(self@),
    {
        let w: usize = self.width();
        let h: usize = self.height();
        let px = self.pixels();
        let mut out: Vec<u8> = Vec::new();
        out.push(80);
        out.push(51);
        out.push(NEWLINE);
        push_decimal(&mut out, w);
        out.push(SPACE);
        push_decimal(&mut out, h);
        out.push(NEWLINE);
        out.push(50);
        out.push(53);
        out.push(53);
        let ghost head = header(w as nat, h as nat);
        assert(out@ =~= head);
        if w > 0 {
            let mut y: usize = 0;
            while y < h
                invariant
                    y <= h,
                    w > 0,
                    px@.len() == w * h,
                    w * h <= usize::MAX,
                    out@ == head + rows_text(px@, w as nat, y as nat),
                decreases h - y,
            {
                assert((y + 1) * w <= w * h) by (nonlinear_arith)
                    requires y < h;
                assert((y + 1) * w == y * w + w) by (nonlinear_arith);
                out.push(NEWLINE);
                push_row(&mut out, px, y * w, w);
                y += 1;
                assert(out@ =~= head + rows_text(px@, w as nat, y as nat));
            }
        }
        out
    }
}

} // verus!
