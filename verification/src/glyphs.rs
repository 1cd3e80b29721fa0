//! Support for building glyph bitmaps: a blank (all-zero) bitmap for
//! space-like glyphs, and clamped plotting of coverage bytes, where a plot
//! beyond the bitmap's bounds is clamped to the nearest valid column and row
//! rather than discarded.

use vstd::prelude::*;

verus! {

/// An all-zero bitmap of width * height bytes.
pub fn blank_bitmap(width: u32, height: u32) -> (r: Vec<u8>)
    requires
        (width as int) * (height as int) <= usize::MAX,
    ensures
        r@.len() == (width as int) * (height as int),
        forall|i: int| 0 <= i < r@.len() ==> r@[i] == 0,
{
    proof {
        vstd::arithmetic::mul::lemma_mul_nonnegative(width as int, height as int);
    }
    let total = (width as usize) * (height as usize);
    let mut r: Vec<u8> = Vec::new();
    let mut i: usize = 0;
    while i < total
        invariant
            i <= total,
            r@.len() == i,
            forall|k: int| 0 <= k < i ==> r@[k] == 0,
        decreases total - i,
    {
        r.push(0);
        i = i + 1;
    }
    r
}

/// The column of a bitmap of the given width that a plot at `x` lands on:
/// `x` itself inside the bitmap, the last column beyond it.
pub open spec fn clamped(x: int, bound: int) -> int {
    if x < bound - 1 {
        x
    } else {
        bound - 1
    }
}

/// Writes one coverage byte at (x, y) of a width x height bitmap, clamping a
/// coordinate that runs beyond the bitmap to its nearest valid column or
/// row. Every other pixel keeps its value.
pub fn plot_clamped(bitmap: &mut Vec<u8>, width: u32, height: u32, x: u32, y: u32, v: u8)
    requires
        old(bitmap)@.len() == (width as int) * (height as int),
        width >= 1,
        height >= 1,
    ensures
        final(bitmap)@.len() == old(bitmap)@.len(),
        final(bitmap)@ == old(bitmap)@.update(
            clamped(y as int, height as int) * (width as int) + clamped(x as int, width as int),
            v,
        ),
{
    let cx = if x < width - 1 {
        x
    } else {
        width - 1
    };
    let cy = if y < height - 1 {
        y
    } else {
        height - 1
    };
    let len = bitmap.len();
    proof {
        assert((cy as int) * (width as int) + cx < (width as int) * (height as int) && (cy as int)
            * (width as int) >= 0) by (nonlinear_arith)
            requires
                0 <= cx as int,
                (cx as int) < width as int,
                0 <= cy as int,
                (cy as int) < height as int,
        ;
        assert((cy as int) * (width as int) + cx < len as int);
    }
    let i = (cy as usize) * (width as usize) + (cx as usize);
    bitmap.set(i, v);
}

} // verus!
