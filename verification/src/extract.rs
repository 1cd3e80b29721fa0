//! Cell feature extraction: a grayscale buffer is partitioned into a grid of
//! fixed-size cells and every cell gets a raw signature — total brightness
//! plus horizontal and vertical edge energy from a 3x3 finite-difference
//! operator. Pixels on the outer border of the whole buffer contribute only
//! brightness, never edge energy: their 3x3 neighborhood is undefined. This
//! is a deliberate boundary policy, not an artifact.
//!
//! All sums are in units of 1/255 intensity, so one fully white pixel adds
//! 255 to its cell's brightness.

use vstd::prelude::*;

verus! {

use crate::sig::{Comp, Sig};

/// Largest value a single pixel can add to any signature component: a
/// gradient weighs six fully-white neighbors, two of them doubled, so its
/// magnitude never exceeds 4 * 255.
pub const MAX_CONTRIB: u32 = 1020;

/// Intensity of pixel (x, y) in a row-major buffer of the given width.
pub open spec fn px(img: Seq<u8>, width: int, x: int, y: int) -> int {
    img[y * width + x] as int
}

/// Horizontal finite-difference gradient at (x, y): the weighted left column
/// of the 3x3 neighborhood minus the weighted right column.
pub open spec fn grad_x(img: Seq<u8>, width: int, x: int, y: int) -> int {
    (px(img, width, x - 1, y - 1) + 2 * px(img, width, x - 1, y) + px(img, width, x - 1, y + 1))
        - (px(img, width, x + 1, y - 1) + 2 * px(img, width, x + 1, y) + px(
        img,
        width,
        x + 1,
        y + 1,
    ))
}

/// Vertical finite-difference gradient at (x, y): the weighted top row of
/// the 3x3 neighborhood minus the weighted bottom row.
pub open spec fn grad_y(img: Seq<u8>, width: int, x: int, y: int) -> int {
    (px(img, width, x - 1, y - 1) + 2 * px(img, width, x, y - 1) + px(img, width, x + 1, y - 1))
        - (px(img, width, x - 1, y + 1) + 2 * px(img, width, x, y + 1) + px(
        img,
        width,
        x + 1,
        y + 1,
    ))
}

/// Whether (x, y) lies strictly inside a width x height buffer. Only such
/// pixels have a full 3x3 neighborhood and contribute edge energy.
pub open spec fn interior(width: int, height: int, x: int, y: int) -> bool {
    0 < x && x + 1 < width && 0 < y && y + 1 < height
}

/// What pixel (x, y) adds to component `c` of its cell's signature.
pub open spec fn term_at(img: Seq<u8>, width: int, height: int, x: int, y: int, c: Comp) -> int {
    match c {
        Comp::B => px(img, width, x, y),
        Comp::Ex => if interior(width, height, x, y) {
            vstd::math::abs(grad_x(img, width, x, y)) as int
        } else {
            0
        },
        Comp::Ey => if interior(width, height, x, y) {
            vstd::math::abs(grad_y(img, width, x, y)) as int
        } else {
            0
        },
    }
}

/// Sum of the contributions of the `n` pixels (x0, y) .. (x0 + n - 1, y).
pub open spec fn row_sum(
    img: Seq<u8>,
    width: int,
    height: int,
    x0: int,
    y: int,
    n: nat,
    c: Comp,
) -> int
    decreases n,
{
    if n == 0 {
        0
    } else {
        row_sum(img, width, height, x0, y, (n - 1) as nat, c) + term_at(
            img,
            width,
            height,
            x0 + n - 1,
            y,
            c,
        )
    }
}

/// Sum of the contributions of the first `rows` rows of a cell of width `cw`
/// whose origin is (x0, y0).
pub open spec fn rect_sum(
    img: Seq<u8>,
    width: int,
    height: int,
    x0: int,
    y0: int,
    cw: nat,
    rows: nat,
    c: Comp,
) -> int
    decreases rows,
{
    if rows == 0 {
        0
    } else {
        rect_sum(img, width, height, x0, y0, cw, (rows - 1) as nat, c) + row_sum(
            img,
            width,
            height,
            x0,
            y0 + rows - 1,
            cw,
            c,
        )
    }
}

/// The raw signature of the cw x ch cell whose origin is (x0, y0).
pub open spec fn cell_sig(
    img: Seq<u8>,
    width: int,
    height: int,
    x0: int,
    y0: int,
    cw: nat,
    ch: nat,
) -> Sig {
    Sig {
        b: rect_sum(img, width, height, x0, y0, cw, ch, Comp::B) as u32,
        ex: rect_sum(img, width, height, x0, y0, cw, ch, Comp::Ex) as u32,
        ey: rect_sum(img, width, height, x0, y0, cw, ch, Comp::Ey) as u32,
    }
}

/// The raw signatures of all whole cells of a width x height buffer, in
/// row-major cell order. A remainder strip narrower than a cell is ignored.
pub open spec fn extracted(img: Seq<u8>, width: int, height: int, cw: int, ch: int) -> Seq<Sig> {
    let nx = width / cw;
    let ny = height / ch;
    Seq::new(
        (nx * ny) as nat,
        |k: int| cell_sig(img, width, height, (k % nx) * cw, (k / nx) * ch, cw as nat, ch as nat),
    )
}

/// No pixel adds more than MAX_CONTRIB to a component, and never a negative
/// amount.
pub proof fn lemma_term_bounds(img: Seq<u8>, width: int, height: int, x: int, y: int, c: Comp)
    ensures
        0 <= term_at(img, width, height, x, y, c) <= MAX_CONTRIB,
{
}

/// A row segment of `n` pixels sums to at most n * MAX_CONTRIB.
pub proof fn lemma_row_sum_bounds(
    img: Seq<u8>,
    width: int,
    height: int,
    x0: int,
    y: int,
    n: nat,
    c: Comp,
)
    ensures
        0 <= row_sum(img, width, height, x0, y, n, c) <= n * MAX_CONTRIB,
    decreases n,
{
    if n == 0 {
    } else {
        lemma_row_sum_bounds(img, width, height, x0, y, (n - 1) as nat, c);
        lemma_term_bounds(img, width, height, x0 + n - 1, y, c);
        assert((n - 1) * MAX_CONTRIB + MAX_CONTRIB == n * MAX_CONTRIB) by (nonlinear_arith);
    }
}

/// A rectangle of cw * rows pixels sums to at most cw * rows * MAX_CONTRIB.
pub proof fn lemma_rect_sum_bounds(
    img: Seq<u8>,
    width: int,
    height: int,
    x0: int,
    y0: int,
    cw: nat,
    rows: nat,
    c: Comp,
)
    ensures
        0 <= rect_sum(img, width, height, x0, y0, cw, rows, c) <= rows * cw * MAX_CONTRIB,
    decreases rows,
{
    if rows == 0 {
    } else {
        lemma_rect_sum_bounds(img, width, height, x0, y0, cw, (rows - 1) as nat, c);
        lemma_row_sum_bounds(img, width, height, x0, y0 + rows - 1, cw, c);
        assert((rows - 1) * cw * MAX_CONTRIB + cw * MAX_CONTRIB == rows * cw * MAX_CONTRIB)
            by (nonlinear_arith);
    }
}

/// Edge-energy boundary rule: a pixel on the outer border of the buffer
/// contributes exactly 0 edge energy, whatever its intensity and whatever
/// its neighbors hold.
pub proof fn lemma_border_no_edge(
    img: Seq<u8>,
    width: int,
    height: int,
    x: int,
    y: int,
    c: Comp,
)
    requires
        x == 0 || x + 1 >= width || y == 0 || y + 1 >= height,
        c == Comp::Ex || c == Comp::Ey,
    ensures
        term_at(img, width, height, x, y, c) == 0,
{
}

/// A cell origin of a whole cell stays inside the buffer.
proof fn lemma_cell_origin(w: int, cw: int, c: int)
    requires
        cw >= 1,
        0 <= c < w / cw,
    ensures
        0 <= c * cw,
        c * cw + cw <= w,
{
    let n = w / cw;
    vstd::arithmetic::div_mod::lemma_fundamental_div_mod(w, cw);
    vstd::arithmetic::div_mod::lemma_mod_bound(w, cw);
    vstd::arithmetic::mul::lemma_mul_inequality(c + 1, n, cw);
    vstd::arithmetic::mul::lemma_mul_nonnegative(c, cw);
    assert((c + 1) * cw == c * cw + cw) by (nonlinear_arith);
    assert(n * cw <= w) by {
        assert(cw * n <= w);
        vstd::arithmetic::mul::lemma_mul_is_commutative(n, cw);
    }
}

/// The absolute horizontal and vertical gradients at an interior pixel.
fn edge_at(img: &Vec<u8>, width: u32, height: u32, x: u32, y: u32) -> (g: (u32, u32))
    requires
        img@.len() == (width as int) * (height as int),
        0 < x,
        x + 1 < width,
        0 < y,
        y + 1 < height,
    ensures
        g.0 == vstd::math::abs(grad_x(img@, width as int, x as int, y as int)),
        g.1 == vstd::math::abs(grad_y(img@, width as int, x as int, y as int)),
{
    let ghost iv = img@;
    let ghost wi = width as int;
    let n = img.len();
    proof {
        assert(((y as int) - 1) * wi == (y as int) * wi - wi) by (nonlinear_arith);
        assert(((y as int) + 1) * wi == (y as int) * wi + wi) by (nonlinear_arith);
        assert(((y as int) + 1) * wi + x + 1 < wi * (height as int) && (y as int) * wi >= wi)
            by (nonlinear_arith)
            requires
                0 < x,
                (x as int) + 1 < wi,
                0 < y,
                (y as int) + 1 < height as int,
        ;
    }
    let i = (y as usize) * (width as usize) + (x as usize);
    let w_us = width as usize;
    let nw = img[i - 1 - w_us] as u32;
    let nn = img[i - w_us] as u32;
    let ne = img[i + 1 - w_us] as u32;
    let wl = img[i - 1] as u32;
    let el = img[i + 1] as u32;
    let sw = img[i - 1 + w_us] as u32;
    let ss = img[i + w_us] as u32;
    let se = img[i + 1 + w_us] as u32;
    proof {
        assert(nw == px(iv, wi, x as int - 1, y as int - 1));
        assert(nn == px(iv, wi, x as int, y as int - 1));
        assert(ne == px(iv, wi, x as int + 1, y as int - 1));
        assert(wl == px(iv, wi, x as int - 1, y as int));
        assert(el == px(iv, wi, x as int + 1, y as int));
        assert(sw == px(iv, wi, x as int - 1, y as int + 1));
        assert(ss == px(iv, wi, x as int, y as int + 1));
        assert(se == px(iv, wi, x as int + 1, y as int + 1));
    }
    let left: u32 = nw + 2 * wl + sw;
    let right: u32 = ne + 2 * el + se;
    let top: u32 = nw + 2 * nn + ne;
    let bottom: u32 = sw + 2 * ss + se;
    let gx: u32 = if left >= right {
        left - right
    } else {
        right - left
    };
    let gy: u32 = if top >= bottom {
        top - bottom
    } else {
        bottom - top
    };
    (gx, gy)
}

/// The raw signature of one cell, computed pixel by pixel.
fn cell_signature(
    img: &Vec<u8>,
    width: u32,
    height: u32,
    x0: u32,
    y0: u32,
    cw: u32,
    ch: u32,
) -> (s: Sig)
    requires
        img@.len() == (width as int) * (height as int),
        cw >= 1,
        ch >= 1,
        x0 + cw <= width,
        y0 + ch <= height,
        (cw as int) * (ch as int) * MAX_CONTRIB <= u32::MAX,
    ensures
        s == cell_sig(img@, width as int, height as int, x0 as int, y0 as int, cw as nat, ch as nat),
{
    let ghost iv = img@;
    let ghost wi = width as int;
    let ghost hi = height as int;
    let n = img.len();
    let mut b: u32 = 0;
    let mut ex: u32 = 0;
    let mut ey: u32 = 0;
    let mut dy: u32 = 0;
    while dy < ch
        invariant
            img@ == iv,
            n == iv.len(),
            iv.len() == wi * hi,
            wi == width as int,
            hi == height as int,
            cw >= 1,
            ch >= 1,
            x0 + cw <= width,
            y0 + ch <= height,
            (cw as int) * (ch as int) * MAX_CONTRIB <= u32::MAX,
            dy <= ch,
            b == rect_sum(iv, wi, hi, x0 as int, y0 as int, cw as nat, dy as nat, Comp::B),
            ex == rect_sum(iv, wi, hi, x0 as int, y0 as int, cw as nat, dy as nat, Comp::Ex),
            ey == rect_sum(iv, wi, hi, x0 as int, y0 as int, cw as nat, dy as nat, Comp::Ey),
        decreases ch - dy,
    {
        let y = y0 + dy;
        let mut dx: u32 = 0;
        while dx < cw
            invariant
                img@ == iv,
                n == iv.len(),
                iv.len() == wi * hi,
                wi == width as int,
                hi == height as int,
                cw >= 1,
                ch >= 1,
                x0 + cw <= width,
                y0 + ch <= height,
                (cw as int) * (ch as int) * MAX_CONTRIB <= u32::MAX,
                dy < ch,
                y == y0 + dy,
                dx <= cw,
                b == rect_sum(iv, wi, hi, x0 as int, y0 as int, cw as nat, dy as nat, Comp::B)
                    + row_sum(iv, wi, hi, x0 as int, y as int, dx as nat, Comp::B),
                ex == rect_sum(iv, wi, hi, x0 as int, y0 as int, cw as nat, dy as nat, Comp::Ex)
                    + row_sum(iv, wi, hi, x0 as int, y as int, dx as nat, Comp::Ex),
                ey == rect_sum(iv, wi, hi, x0 as int, y0 as int, cw as nat, dy as nat, Comp::Ey)
                    + row_sum(iv, wi, hi, x0 as int, y as int, dx as nat, Comp::Ey),
            decreases cw - dx,
        {
            let x = x0 + dx;
            proof {
                // Room for one more pixel in every accumulator.
                lemma_rect_sum_bounds(iv, wi, hi, x0 as int, y0 as int, cw as nat, dy as nat, Comp::B);
                lemma_rect_sum_bounds(iv, wi, hi, x0 as int, y0 as int, cw as nat, dy as nat, Comp::Ex);
                lemma_rect_sum_bounds(iv, wi, hi, x0 as int, y0 as int, cw as nat, dy as nat, Comp::Ey);
                lemma_row_sum_bounds(iv, wi, hi, x0 as int, y as int, dx as nat, Comp::B);
                lemma_row_sum_bounds(iv, wi, hi, x0 as int, y as int, dx as nat, Comp::Ex);
                lemma_row_sum_bounds(iv, wi, hi, x0 as int, y as int, dx as nat, Comp::Ey);
                assert(dy * (cw as int) * MAX_CONTRIB + dx * MAX_CONTRIB + MAX_CONTRIB <= (cw as int)
                    * (ch as int) * MAX_CONTRIB) by (nonlinear_arith)
                    requires
                        0 <= dy < ch,
                        0 <= dx < cw,
                        MAX_CONTRIB > 0,
                ;
                // The pixel and its neighborhood lie inside the buffer.
                assert((y as int) * wi + x < wi * hi && (y as int) * wi >= 0) by (nonlinear_arith)
                    requires
                        0 <= x < wi,
                        0 <= y < hi,
                ;
                assert((y as int) * wi + x < n as int);
            }
            let i = (y as usize) * (width as usize) + (x as usize);
            b = b + (img[i] as u32);
            if x > 0 && x + 1 < width && y > 0 && y + 1 < height {
                let g = edge_at(img, width, height, x, y);
                ex = ex + g.0;
                ey = ey + g.1;
            }
            dx = dx + 1;
        }
        dy = dy + 1;
    }
    Sig { b, ex, ey }
}

/// Partitions the buffer into whole cw x ch cells and returns one raw
/// signature per cell, in row-major cell order. Any remainder strip beyond
/// the last whole cell is ignored.
pub fn extract_cells(img: &Vec<u8>, width: u32, height: u32, cw: u32, ch: u32) -> (r: Vec<Sig>)
    requires
        img@.len() == (width as int) * (height as int),
        cw >= 1,
        ch >= 1,
        (cw as int) * (ch as int) * MAX_CONTRIB <= u32::MAX,
    ensures
        r@ == extracted(img@, width as int, height as int, cw as int, ch as int),
        r@.len() == ((width as int) / (cw as int)) * ((height as int) / (ch as int)),
{
    let ghost target = extracted(img@, width as int, height as int, cw as int, ch as int);
    let nx = width / cw;
    let ny = height / ch;
    proof {
        vstd::arithmetic::mul::lemma_mul_nonnegative(nx as int, ny as int);
        assert(target.len() == (nx as int) * (ny as int));
    }
    let mut r: Vec<Sig> = Vec::new();
    let mut cy: u32 = 0;
    while cy < ny
        invariant
            img@.len() == (width as int) * (height as int),
            cw >= 1,
            ch >= 1,
            (cw as int) * (ch as int) * MAX_CONTRIB <= u32::MAX,
            nx == width / cw,
            ny == height / ch,
            cy <= ny,
            target == extracted(img@, width as int, height as int, cw as int, ch as int),
            target.len() == (nx as int) * (ny as int),
            r@.len() == cy * nx,
            forall|k: int| 0 <= k < r@.len() ==> r@[k] == target[k],
        decreases ny - cy,
    {
        proof {
            lemma_cell_origin(height as int, ch as int, cy as int);
        }
        let y0 = cy * ch;
        proof {
            assert((cy as int) * (nx as int) + (nx as int) <= (nx as int) * (ny as int))
                by (nonlinear_arith)
                requires
                    0 <= (cy as int) < (ny as int),
                    0 <= nx as int,
            ;
        }
        let mut cx: u32 = 0;
        while cx < nx
            invariant
                img@.len() == (width as int) * (height as int),
                cw >= 1,
                ch >= 1,
                (cw as int) * (ch as int) * MAX_CONTRIB <= u32::MAX,
                nx == width / cw,
                ny == height / ch,
                cy < ny,
                y0 == cy * ch,
                y0 + ch <= height,
                cx <= nx,
                target == extracted(img@, width as int, height as int, cw as int, ch as int),
                target.len() == (nx as int) * (ny as int),
                r@.len() == cy * nx + cx,
                (cy as int) * (nx as int) + (nx as int) <= target.len(),
                forall|k: int| 0 <= k < r@.len() ==> r@[k] == target[k],
            decreases nx - cx,
        {
            proof {
                lemma_cell_origin(width as int, cw as int, cx as int);
            }
            let x0 = cx * cw;
            proof {
                assert(0 <= (cy as int) * (nx as int) + (cx as int) && (cy as int) * (nx as int)
                    + (cx as int) < (nx as int) * (ny as int)) by (nonlinear_arith)
                    requires
                        0 <= (cy as int) < (ny as int),
                        0 <= (cx as int) < (nx as int),
                ;
                let k = (cy as int) * (nx as int) + (cx as int);
                vstd::arithmetic::div_mod::lemma_fundamental_div_mod_converse(
                    k,
                    nx as int,
                    cy as int,
                    cx as int,
                );
                assert(target[k] == cell_sig(
                    img@,
                    width as int,
                    height as int,
                    (cx as int) * (cw as int),
                    (cy as int) * (ch as int),
                    cw as nat,
                    ch as nat,
                ));
                assert(x0 as int == (cx as int) * (cw as int));
                assert(y0 as int == (cy as int) * (ch as int));
            }
            let s = cell_signature(img, width, height, x0, y0, cw, ch);
            r.push(s);
            cx = cx + 1;
        }
        cy = cy + 1;
        proof {
            assert((cy as int) * (nx as int) == (cy - 1) * (nx as int) + nx) by (nonlinear_arith);
        }
    }
    proof {
        assert((ny as int) * (nx as int) == (nx as int) * (ny as int)) by (nonlinear_arith);
        assert(r@ =~= target);
    }
    r
}

} // verus!
