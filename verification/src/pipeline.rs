//! The whole pipeline, one batch transform: extract a signature per image
//! cell and per glyph, normalize the image signatures by min-max and the
//! glyph signatures by rank, match every cell to its nearest glyph, and
//! compose the output buffer from the chosen bitmaps. The result is a pure
//! function of the image buffer, the glyph alphabet and the cell size.

use vstd::prelude::*;

verus! {

use crate::codec::{
    decode_image, decoded_gray, decodes_ok, encode_image, png_encodes, png_encoding, png_height,
    png_width, CodecError,
};
use crate::compose::{compose, composed, views};
use crate::extract::{cell_sig, extract_cells, extracted, MAX_CONTRIB};
use crate::matcher::{best_index, best_match};
use crate::normalize::{mm_normalized, normalize_min_max, normalize_quantile, q_normalized};
use crate::sig::Sig;

/// Why rendering failed.
#[derive(Clone, Copy, PartialEq, Eq, Structural, Debug)]
pub enum RenderError {
    /// A cell dimension is zero, or a cell holds too many pixels for the
    /// signature accumulators.
    BadCellSize,
    /// The image buffer does not hold exactly width * height bytes.
    SizeMismatch,
    /// The alphabet holds no glyph at all.
    EmptyAlphabet,
    /// Some glyph bitmap does not hold exactly one cell of pixels.
    BadGlyph,
}

/// Why the end-to-end transform failed.
#[derive(Clone, Copy, PartialEq, Eq, Structural, Debug)]
pub enum MosaicError {
    /// Reading or writing the image failed.
    Codec(CodecError),
    /// The decoded buffer and the alphabet cannot be rendered.
    Render(RenderError),
}

/// The signature of a whole glyph bitmap: the one cell it consists of.
pub open spec fn glyph_sig(bitmap: Seq<u8>, cw: int, ch: int) -> Sig {
    cell_sig(bitmap, cw, ch, 0, 0, cw as nat, ch as nat)
}

/// The raw signatures of a glyph alphabet, in alphabet order.
pub open spec fn glyph_sigs(glyphs: Seq<Seq<u8>>, cw: int, ch: int) -> Seq<Sig> {
    Seq::new(glyphs.len(), |g: int| glyph_sig(glyphs[g], cw, ch))
}

/// The glyph chosen for every cell: image signatures are min-max
/// normalized, glyph signatures rank normalized, and each cell takes the
/// first nearest glyph under the weighted distance.
pub open spec fn chosen_indices(
    img: Seq<u8>,
    width: int,
    height: int,
    glyphs: Seq<Seq<u8>>,
    cw: int,
    ch: int,
) -> Seq<usize> {
    let cells = mm_normalized(extracted(img, width, height, cw, ch));
    let alphabet = q_normalized(glyph_sigs(glyphs, cw, ch));
    Seq::new(cells.len(), |k: int| best_index(cells[k], alphabet) as usize)
}

/// The rendered mosaic: the composition of the chosen glyph bitmaps over
/// the grid of whole cells, zero elsewhere.
pub open spec fn render_spec(
    img: Seq<u8>,
    width: int,
    height: int,
    glyphs: Seq<Seq<u8>>,
    cw: int,
    ch: int,
) -> Seq<u8> {
    composed(width, height, cw, ch, glyphs, chosen_indices(img, width, height, glyphs, cw, ch))
}

/// When rendering succeeds: workable cell dimensions, a buffer of exactly
/// width * height bytes, and a nonempty alphabet of one-cell bitmaps.
pub open spec fn render_ok(
    img: Seq<u8>,
    width: int,
    height: int,
    glyphs: Seq<Seq<u8>>,
    cw: int,
    ch: int,
) -> bool {
    &&& cell_size_ok(cw, ch)
    &&& img.len() == width * height
    &&& glyphs.len() >= 1
    &&& forall|g: int| 0 <= g < glyphs.len() ==> (#[trigger] glyphs[g]).len() == cw * ch
}

/// A workable cell size: both dimensions positive, and small enough that a
/// cell's signature sums fit their accumulators.
pub open spec fn cell_size_ok(cw: int, ch: int) -> bool {
    1 <= cw && 1 <= ch && cw * ch * (MAX_CONTRIB as int) <= u32::MAX
}

/// Determinism law: the mosaic is a function of the image buffer, the glyph
/// alphabet and the cell size alone — two renders of the same inputs
/// produce byte-identical output buffers.
pub proof fn lemma_render_deterministic(
    img: Seq<u8>,
    width: int,
    height: int,
    glyphs: Seq<Seq<u8>>,
    cw: int,
    ch: int,
    out1: Seq<u8>,
    out2: Seq<u8>,
)
    requires
        out1 == render_spec(img, width, height, glyphs, cw, ch),
        out2 == render_spec(img, width, height, glyphs, cw, ch),
    ensures
        out1 == out2,
{
}

/// Renders the mosaic: one glyph bitmap per whole cell of the image, the
/// remainder strip black. Fails, writing nothing, when the cell size is
/// unworkable, the buffer does not match its dimensions, the alphabet is
/// empty, or a bitmap is not one cell.
#[verifier::loop_isolation(false)]
pub fn render(
    img: &Vec<u8>,
    width: u32,
    height: u32,
    glyphs: &Vec<Vec<u8>>,
    cw: u32,
    ch: u32,
) -> (r: Result<Vec<u8>, RenderError>)
    ensures
        r is Ok <==> render_ok(
            img@,
            width as int,
            height as int,
            views(glyphs@),
            cw as int,
            ch as int,
        ),
        r matches Ok(out) ==> out@ == render_spec(
            img@,
            width as int,
            height as int,
            views(glyphs@),
            cw as int,
            ch as int,
        ) && out@.len() == (width as int) * (height as int),
        r == Err::<Vec<u8>, RenderError>(RenderError::BadCellSize) <==> !cell_size_ok(
            cw as int,
            ch as int,
        ),
        r == Err::<Vec<u8>, RenderError>(RenderError::SizeMismatch) <==> (cell_size_ok(
            cw as int,
            ch as int,
        ) && img@.len() != (width as int) * (height as int)),
        r == Err::<Vec<u8>, RenderError>(RenderError::EmptyAlphabet) <==> (cell_size_ok(
            cw as int,
            ch as int,
        ) && img@.len() == (width as int) * (height as int) && glyphs@.len() == 0),
{
    let ghost gv = views(glyphs@);
    proof {
        assert((cw as int) * (ch as int) < 0x10000000000000000) by (nonlinear_arith)
            requires
                0 <= cw as int,
                (cw as int) < 0x100000000,
                0 <= ch as int,
                (ch as int) < 0x100000000,
        ;
        assert((width as int) * (height as int) < 0x10000000000000000) by (nonlinear_arith)
            requires
                0 <= width as int,
                (width as int) < 0x100000000,
                0 <= height as int,
                (height as int) < 0x100000000,
        ;
    }
    if cw < 1 || ch < 1 || (cw as u64) * (ch as u64) > (u32::MAX as u64) / (MAX_CONTRIB as u64) {
        proof {
            if cw >= 1 && ch >= 1 {
                assert((cw as int) * (ch as int) * (MAX_CONTRIB as int) > u32::MAX)
                    by (nonlinear_arith)
                    requires
                        (cw as int) * (ch as int) > (u32::MAX as int) / (MAX_CONTRIB as int),
                        (u32::MAX as int) / (MAX_CONTRIB as int) == 4210752,
                        MAX_CONTRIB == 1020,
                ;
            }
        }
        return Err(RenderError::BadCellSize);
    }
    proof {
        assert((cw as int) * (ch as int) * (MAX_CONTRIB as int) <= u32::MAX) by (nonlinear_arith)
            requires
                (cw as int) * (ch as int) <= (u32::MAX as int) / (MAX_CONTRIB as int),
                (u32::MAX as int) / (MAX_CONTRIB as int) == 4210752,
                MAX_CONTRIB == 1020,
        ;
    }
    let img_len = img.len();
    if img_len as u128 != (width as u128) * (height as u128) {
        return Err(RenderError::SizeMismatch);
    }
    let n_glyphs = glyphs.len();
    if n_glyphs == 0 {
        return Err(RenderError::EmptyAlphabet);
    }
    let cell_area = (cw as u64) * (ch as u64);
    let mut g: usize = 0;
    while g < n_glyphs
        invariant
            n_glyphs == glyphs@.len(),
            gv == views(glyphs@),
            cell_area == (cw as int) * (ch as int),
            g <= n_glyphs,
            forall|k: int| 0 <= k < g ==> (#[trigger] gv[k]).len() == (cw as int) * (ch as int),
        decreases n_glyphs - g,
    {
        if glyphs[g].len() as u64 != cell_area {
            proof {
                assert(gv[g as int].len() != (cw as int) * (ch as int));
            }
            return Err(RenderError::BadGlyph);
        }
        g = g + 1;
    }
    let cells_raw = extract_cells(img, width, height, cw, ch);
    let ghost gsigs_spec = glyph_sigs(gv, cw as int, ch as int);
    let mut gsigs: Vec<Sig> = Vec::new();
    let mut g2: usize = 0;
    while g2 < n_glyphs
        invariant
            n_glyphs == glyphs@.len(),
            gv == views(glyphs@),
            cell_size_ok(cw as int, ch as int),
            forall|k: int| 0 <= k < n_glyphs ==> (#[trigger] gv[k]).len() == (cw as int) * (ch as int),
            gsigs_spec == glyph_sigs(gv, cw as int, ch as int),
            gsigs_spec.len() == n_glyphs,
            g2 <= n_glyphs,
            gsigs@.len() == g2,
            forall|k: int| 0 <= k < g2 ==> gsigs@[k] == gsigs_spec[k],
        decreases n_glyphs - g2,
    {
        let bitmap = &glyphs[g2];
        proof {
            assert(gv[g2 as int] == glyphs@[g2 as int]@);
            assert(bitmap@.len() == (cw as int) * (ch as int));
        }
        let s = extract_cells(bitmap, cw, ch, cw, ch);
        proof {
            vstd::arithmetic::div_mod::lemma_div_by_self(cw as int);
            vstd::arithmetic::div_mod::lemma_div_by_self(ch as int);
            vstd::arithmetic::div_mod::lemma_div_of0(1);
            vstd::arithmetic::div_mod::lemma_small_mod(0, 1);
            assert(extracted(bitmap@, cw as int, ch as int, cw as int, ch as int).len() == 1);
            assert(extracted(bitmap@, cw as int, ch as int, cw as int, ch as int)[0] == cell_sig(
                bitmap@,
                cw as int,
                ch as int,
                0,
                0,
                cw as nat,
                ch as nat,
            ));
        }
        let sig0 = s[0];
        gsigs.push(sig0);
        g2 = g2 + 1;
    }
    proof {
        assert(gsigs@ =~= gsigs_spec);
    }
    let cells = normalize_min_max(&cells_raw);
    let alphabet = normalize_quantile(&gsigs);
    let ghost cells_spec = mm_normalized(
        extracted(img@, width as int, height as int, cw as int, ch as int),
    );
    let ghost alpha_spec = q_normalized(gsigs_spec);
    let ghost choices_spec = chosen_indices(
        img@,
        width as int,
        height as int,
        gv,
        cw as int,
        ch as int,
    );
    let n_cells = cells.len();
    let mut choices: Vec<usize> = Vec::new();
    let mut k: usize = 0;
    while k < n_cells
        invariant
            cells@ == cells_spec,
            alphabet@ == alpha_spec,
            alphabet@.len() == n_glyphs,
            n_glyphs >= 1,
            n_glyphs == glyphs@.len(),
            n_cells == cells_spec.len(),
            choices_spec.len() == n_cells,
            forall|j: int| 0 <= j < n_cells ==> choices_spec[j] == best_index(
                cells_spec[j],
                alpha_spec,
            ) as usize,
            k <= n_cells,
            choices@.len() == k,
            forall|j: int| 0 <= j < k ==> choices@[j] == choices_spec[j],
            forall|j: int| 0 <= j < k ==> (#[trigger] choices@[j]) < glyphs@.len(),
        decreases n_cells - k,
    {
        let target = cells[k];
        let m = best_match(&target, &alphabet);
        choices.push(m);
        k = k + 1;
    }
    proof {
        assert(choices@ =~= choices_spec);
        assert((width as int) * (height as int) == img@.len());
        assert forall|j: int| 0 <= j < glyphs@.len() implies (#[trigger] glyphs@[j])@.len() == (
        cw as int) * (ch as int) by {
            assert(gv[j] == glyphs@[j]@);
        }
    }
    let out = compose(width, height, cw, ch, glyphs, &choices);
    Ok(out)
}

/// The end-to-end batch transform: decode a PNG byte stream to grayscale,
/// render the mosaic, and encode the result as a grayscale PNG. Either every
/// stage succeeds and the encoded bytes come back, or the first failing
/// stage's error does and nothing is produced.
pub fn mosaic(data: &Vec<u8>, glyphs: &Vec<Vec<u8>>, cw: u32, ch: u32) -> (r: Result<
    Vec<u8>,
    MosaicError,
>)
    ensures
        r is Ok <==> (decodes_ok(data@) && render_ok(
            decoded_gray(data@),
            png_width(data@) as int,
            png_height(data@) as int,
            views(glyphs@),
            cw as int,
            ch as int,
        ) && png_encodes(
            render_spec(
                decoded_gray(data@),
                png_width(data@) as int,
                png_height(data@) as int,
                views(glyphs@),
                cw as int,
                ch as int,
            ),
            png_width(data@),
            png_height(data@),
        )),
        r matches Ok(v) ==> v@ == png_encoding(
            render_spec(
                decoded_gray(data@),
                png_width(data@) as int,
                png_height(data@) as int,
                views(glyphs@),
                cw as int,
                ch as int,
            ),
            png_width(data@),
            png_height(data@),
        ),
        !decodes_ok(data@) ==> (r matches Err(e) && e matches MosaicError::Codec(_)),
        decodes_ok(data@) && !render_ok(
            decoded_gray(data@),
            png_width(data@) as int,
            png_height(data@) as int,
            views(glyphs@),
            cw as int,
            ch as int,
        ) ==> (r matches Err(e) && e matches MosaicError::Render(_)),
{
    let decoded = match decode_image(data) {
        Ok(d) => d,
        Err(e) => {
            return Err(MosaicError::Codec(e));
        },
    };
    let (width, height, buffer) = decoded;
    let rendered = match render(&buffer, width, height, glyphs, cw, ch) {
        Ok(o) => o,
        Err(e) => {
            return Err(MosaicError::Render(e));
        },
    };
    match encode_image(&rendered, width, height) {
        Ok(bytes) => Ok(bytes),
        Err(e) => Err(MosaicError::Codec(e)),
    }
}

} // verus!
