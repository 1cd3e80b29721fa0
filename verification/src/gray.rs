//! Conversion of RGBA pixel data to single-byte grayscale: each pixel
//! becomes the alpha-weighted mean of its three color samples,
//! (R + G + B) * A / 765, rounded down.

use vstd::prelude::*;

verus! {

/// The grayscale intensity of the RGBA pixel starting at byte 4 * i:
/// (R + G + B) * A / 765. The value always fits a byte, since
/// (R + G + B) * A is at most 765 * 255.
pub open spec fn luma(p: Seq<u8>, i: int) -> int {
    (p[4 * i] + p[4 * i + 1] + p[4 * i + 2]) * p[4 * i + 3] / 765
}

/// The whole grayscale buffer a sequence of RGBA bytes converts to, one byte
/// per four.
pub open spec fn gray_of_rgba(p: Seq<u8>) -> Seq<u8> {
    Seq::new((p.len() / 4) as nat, |i: int| luma(p, i) as u8)
}

/// The alpha-weighted mean of three color samples never exceeds a byte.
pub proof fn lemma_luma_fits(sum: int, a: int)
    requires
        0 <= sum <= 765,
        0 <= a <= 255,
    ensures
        0 <= sum * a / 765 <= 255,
{
    vstd::arithmetic::mul::lemma_mul_nonnegative(sum, a);
    vstd::arithmetic::div_mod::lemma_div_pos_is_pos(sum * a, 765);
    vstd::arithmetic::mul::lemma_mul_inequality(sum, 765, a);
    vstd::arithmetic::div_mod::lemma_div_is_ordered(sum * a, 765 * a, 765);
    assert(765 * a == a * 765) by (nonlinear_arith);
    vstd::arithmetic::div_mod::lemma_div_multiples_vanish(a, 765);
}

/// Converts an RGBA byte buffer (four bytes per pixel) to grayscale: every
/// pixel becomes (R + G + B) * A / 765. Trailing bytes beyond the last whole
/// pixel are ignored.
pub fn rgba_to_gray(rgba: &Vec<u8>) -> (r: Vec<u8>)
    ensures
        r@ == gray_of_rgba(rgba@),
        r@.len() == rgba@.len() / 4,
{
    let ghost pv = rgba@;
    let ghost target = gray_of_rgba(pv);
    let len = rgba.len();
    let count = len / 4;
    proof {
        vstd::arithmetic::div_mod::lemma_div_pos_is_pos(pv.len() as int, 4);
    }
    let mut r: Vec<u8> = Vec::new();
    let mut i: usize = 0;
    while i < count
        invariant
            rgba@ == pv,
            len == pv.len(),
            count == pv.len() / 4,
            target == gray_of_rgba(pv),
            target.len() == count,
            i <= count,
            r@.len() == i,
            forall|k: int| 0 <= k < i ==> r@[k] == target[k],
        decreases count - i,
    {
        proof {
            vstd::arithmetic::div_mod::lemma_fundamental_div_mod(pv.len() as int, 4);
            vstd::arithmetic::div_mod::lemma_mod_bound(pv.len() as int, 4);
            assert(4 * (i as int) + 3 < pv.len()) by (nonlinear_arith)
                requires
                    0 <= i as int,
                    (i as int) < (pv.len() as int) / 4,
                    pv.len() as int == 4 * ((pv.len() as int) / 4) + (pv.len() as int) % 4,
                    0 <= (pv.len() as int) % 4,
            ;
            assert(4 * (i as int) + 3 < len as int);
        }
        let red = rgba[4 * i] as u32;
        let green = rgba[4 * i + 1] as u32;
        let blue = rgba[4 * i + 2] as u32;
        let alpha = rgba[4 * i + 3] as u32;
        let sum = red + green + blue;
        proof {
            lemma_luma_fits(sum as int, alpha as int);
        }
        let v = (sum * alpha / 765) as u8;
        r.push(v);
        proof {
            assert(r@[i as int] == target[i as int]);
        }
        i = i + 1;
    }
    proof {
        assert(r@ =~= target);
    }
    r
}

} // verus!
