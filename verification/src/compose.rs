//! The compositor: every whole cell of the output buffer receives the
//! bitmap of the glyph chosen for it, copied pixel for pixel, with no
//! blending. Pixels of a remainder strip beyond the last whole cell are left
//! at zero (black), exactly as the buffer was initialized.

use vstd::prelude::*;

verus! {

/// The views of a vector of bitmaps.
pub open spec fn views(g: Seq<Vec<u8>>) -> Seq<Seq<u8>> {
    g.map_values(|v: Vec<u8>| v@)
}

/// The intensity of output pixel `i` (flat, row-major): inside the grid of
/// whole cells it is the pixel of the glyph chosen for that cell, outside it
/// is 0.
pub open spec fn composed_pixel(
    width: int,
    height: int,
    cw: int,
    ch: int,
    glyphs: Seq<Seq<u8>>,
    choices: Seq<usize>,
    i: int,
) -> u8 {
    let x = i % width;
    let y = i / width;
    let nx = width / cw;
    let ny = height / ch;
    if x < nx * cw && y < ny * ch {
        glyphs[choices[(y / ch) * nx + x / cw] as int][(y % ch) * cw + (x % cw)]
    } else {
        0
    }
}

/// The whole composed output buffer.
pub open spec fn composed(
    width: int,
    height: int,
    cw: int,
    ch: int,
    glyphs: Seq<Seq<u8>>,
    choices: Seq<usize>,
) -> Seq<u8> {
    Seq::new((width * height) as nat, |i: int| composed_pixel(width, height, cw, ch, glyphs, choices, i))
}

/// Writes one glyph bitmap per grid cell into a fresh width x height buffer:
/// the glyph named by the cell's entry of `choices`, in row-major cell
/// order. Pixels beyond the last whole cell stay 0.
pub fn compose(
    width: u32,
    height: u32,
    cw: u32,
    ch: u32,
    glyphs: &Vec<Vec<u8>>,
    choices: &Vec<usize>,
) -> (out: Vec<u8>)
    requires
        cw >= 1,
        ch >= 1,
        (width as int) * (height as int) <= usize::MAX,
        choices@.len() == ((width as int) / (cw as int)) * ((height as int) / (ch as int)),
        forall|k: int| 0 <= k < choices@.len() ==> (#[trigger] choices@[k]) < glyphs@.len(),
        forall|g: int|
            0 <= g < glyphs@.len() ==> (#[trigger] glyphs@[g])@.len() == (cw as int) * (ch as int),
    ensures
        out@ == composed(
            width as int,
            height as int,
            cw as int,
            ch as int,
            views(glyphs@),
            choices@,
        ),
        out@.len() == (width as int) * (height as int),
{
    let ghost target = composed(
        width as int,
        height as int,
        cw as int,
        ch as int,
        views(glyphs@),
        choices@,
    );
    let ghost gv = views(glyphs@);
    let ghost cv = choices@;
    proof {
        vstd::arithmetic::mul::lemma_mul_nonnegative(width as int, height as int);
    }
    let total = (width as usize) * (height as usize);
    let nx = width / cw;
    let ny = height / ch;
    let ncells = choices.len();
    let mut out: Vec<u8> = Vec::new();
    let mut i: usize = 0;
    while i < total
        invariant
            total == (width as int) * (height as int),
            cw >= 1,
            ch >= 1,
            nx == width / cw,
            ny == height / ch,
            choices@ == cv,
            ncells == cv.len(),
            cv.len() == (nx as int) * (ny as int),
            forall|k: int| 0 <= k < cv.len() ==> (#[trigger] cv[k]) < glyphs@.len(),
            forall|g: int|
                0 <= g < glyphs@.len() ==> (#[trigger] glyphs@[g])@.len() == (cw as int) * (ch as int),
            gv == views(glyphs@),
            target == composed(width as int, height as int, cw as int, ch as int, gv, cv),
            target.len() == total,
            i <= total,
            out@.len() == i,
            forall|k: int| 0 <= k < i ==> out@[k] == target[k],
        decreases total - i,
    {
        proof {
            assert(width >= 1 && height >= 1) by (nonlinear_arith)
                requires
                    (width as int) * (height as int) > i as int,
                    i >= 0,
            ;
            vstd::arithmetic::div_mod::lemma_fundamental_div_mod(i as int, width as int);
            vstd::arithmetic::div_mod::lemma_mod_bound(i as int, width as int);
            vstd::arithmetic::div_mod::lemma_div_pos_is_pos(i as int, width as int);
            assert((i as int) / (width as int) < height as int) by (nonlinear_arith)
                requires
                    0 <= i as int,
                    (i as int) < (width as int) * (height as int),
                    width as int >= 1,
                    (width as int) * ((i as int) / (width as int)) + (i as int) % (width as int)
                        == i as int,
                    0 <= (i as int) % (width as int) < width as int,
            ;
            vstd::arithmetic::div_mod::lemma_fundamental_div_mod(width as int, cw as int);
            vstd::arithmetic::div_mod::lemma_mod_bound(width as int, cw as int);
            vstd::arithmetic::div_mod::lemma_fundamental_div_mod(height as int, ch as int);
            vstd::arithmetic::div_mod::lemma_mod_bound(height as int, ch as int);
            assert((nx as int) * (cw as int) <= width as int) by (nonlinear_arith)
                requires
                    cw >= 1,
                    nx as int == (width as int) / (cw as int),
                    (cw as int) * ((width as int) / (cw as int)) + (width as int) % (cw as int)
                        == width as int,
                    (width as int) % (cw as int) >= 0,
            ;
            assert((ny as int) * (ch as int) <= height as int) by (nonlinear_arith)
                requires
                    ch >= 1,
                    ny as int == (height as int) / (ch as int),
                    (ch as int) * ((height as int) / (ch as int)) + (height as int) % (ch as int)
                        == height as int,
                    (height as int) % (ch as int) >= 0,
            ;
        }
        let x = (i % (width as usize)) as u32;
        let y = (i / (width as usize)) as u32;
        let v: u8;
        if x < nx * cw && y < ny * ch {
            let cx = x / cw;
            let cy = y / ch;
            proof {
                vstd::arithmetic::div_mod::lemma_fundamental_div_mod(x as int, cw as int);
                vstd::arithmetic::div_mod::lemma_fundamental_div_mod(y as int, ch as int);
                vstd::arithmetic::div_mod::lemma_mod_bound(x as int, cw as int);
                vstd::arithmetic::div_mod::lemma_mod_bound(y as int, ch as int);
                assert(cx < nx && cy < ny) by (nonlinear_arith)
                    requires
                        cw >= 1,
                        ch >= 1,
                        (x as int) < (nx as int) * (cw as int),
                        (y as int) < (ny as int) * (ch as int),
                        cx as int == (x as int) / (cw as int),
                        cy as int == (y as int) / (ch as int),
                        (cw as int) * ((x as int) / (cw as int)) + (x as int) % (cw as int) == x as int,
                        (ch as int) * ((y as int) / (ch as int)) + (y as int) % (ch as int) == y as int,
                        0 <= (x as int) % (cw as int) < cw as int,
                        0 <= (y as int) % (ch as int) < ch as int,
                ;
                assert(0 <= (cy as int) * (nx as int) + (cx as int) < (nx as int) * (ny as int))
                    by (nonlinear_arith)
                    requires
                        0 <= (cx as int) < (nx as int),
                        0 <= (cy as int) < (ny as int),
                ;
                assert((cy as int) * (nx as int) + (cx as int) < ncells as int);
            }
            let cell = (cy as usize) * (nx as usize) + (cx as usize);
            let g = choices[cell];
            proof {
                assert((y as int % ch as int) * (cw as int) + (x as int % cw as int) < (cw as int)
                    * (ch as int)) by (nonlinear_arith)
                    requires
                        cw >= 1,
                        ch >= 1,
                        0 <= (x as int) % (cw as int) < cw as int,
                        0 <= (y as int) % (ch as int) < ch as int,
                ;
            }
            let gb = &glyphs[g];
            let glen = gb.len();
            proof {
                assert(glen as int == (cw as int) * (ch as int));
            }
            let off = ((y % ch) as usize) * (cw as usize) + ((x % cw) as usize);
            v = gb[off];
            proof {
                assert(gv[g as int] == glyphs@[g as int]@);
            }
        } else {
            v = 0;
        }
        out.push(v);
        proof {
            assert(out@[i as int] == target[i as int]);
        }
        i = i + 1;
    }
    proof {
        assert(out@ =~= target);
    }
    out
}

/// Coverage law: every pixel of a whole-cell region of the composed buffer
/// holds exactly the corresponding pixel of the one glyph chosen for that
/// cell — cell (cx, cy), offset (dx, dy) maps to that glyph's pixel
/// (dx, dy), and to nothing else.
pub proof fn lemma_cell_coverage(
    width: int,
    height: int,
    cw: int,
    ch: int,
    glyphs: Seq<Seq<u8>>,
    choices: Seq<usize>,
    out: Seq<u8>,
    cx: int,
    cy: int,
    dx: int,
    dy: int,
)
    requires
        cw >= 1,
        ch >= 1,
        0 <= cx < width / cw,
        0 <= cy < height / ch,
        0 <= dx < cw,
        0 <= dy < ch,
        out == composed(width, height, cw, ch, glyphs, choices),
    ensures
        0 <= (cy * ch + dy) * width + (cx * cw + dx) < out.len(),
        out[(cy * ch + dy) * width + (cx * cw + dx)] == glyphs[choices[cy * (width / cw) + cx] as int][dy
            * cw + dx],
{
    let nx = width / cw;
    let ny = height / ch;
    let x = cx * cw + dx;
    let y = cy * ch + dy;
    let i = y * width + x;
    vstd::arithmetic::div_mod::lemma_fundamental_div_mod(width, cw);
    vstd::arithmetic::div_mod::lemma_mod_bound(width, cw);
    vstd::arithmetic::div_mod::lemma_fundamental_div_mod(height, ch);
    vstd::arithmetic::div_mod::lemma_mod_bound(height, ch);
    assert(0 <= x && x < nx * cw && nx * cw <= width) by (nonlinear_arith)
        requires
            cw >= 1,
            0 <= cx < nx,
            0 <= dx < cw,
            x == cx * cw + dx,
            width == cw * nx + width % cw,
            width % cw >= 0,
    ;
    assert(0 <= y && y < ny * ch && ny * ch <= height) by (nonlinear_arith)
        requires
            ch >= 1,
            0 <= cy < ny,
            0 <= dy < ch,
            y == cy * ch + dy,
            height == ch * ny + height % ch,
            height % ch >= 0,
    ;
    assert(0 <= i < width * height) by (nonlinear_arith)
        requires
            0 <= x < width,
            0 <= y < height,
            i == y * width + x,
    ;
    vstd::arithmetic::div_mod::lemma_fundamental_div_mod_converse(i, width, y, x);
    vstd::arithmetic::div_mod::lemma_fundamental_div_mod_converse(x, cw, cx, dx);
    vstd::arithmetic::div_mod::lemma_fundamental_div_mod_converse(y, ch, cy, dy);
    assert(out[i] == composed_pixel(width, height, cw, ch, glyphs, choices, i));
}

} // verus!
