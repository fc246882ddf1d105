//! PNG canvases: each module becomes a square of pixels, centered on a
//! white square canvas.

use vstd::prelude::*;
use crate::error::WifiQrError;
use crate::matrix::QrMatrix;
use crate::svg::ensure_canvas_size;
use image::{ImageBuffer, Rgb, RgbImage};

verus! {

/// An RGB image of the `image` crate, the canvas that a PNG is written
/// from.
#[verifier::external_body]
pub struct PngCanvas {
    pub image: RgbImage,
}

/// The pixels of an RGB image: the color `(red, green, blue)` at each
/// `(x, y)` inside it.
pub uninterp spec fn canvas_pixels(canvas: PngCanvas) -> Map<(u32, u32), (u8, u8, u8)>;

/// The width and height of an RGB image.
pub uninterp spec fn canvas_dimensions(canvas: PngCanvas) -> (u32, u32);

/// Whether `pixels` are exactly those of a `size` by `size` square, all
/// with `color`.
pub open spec fn uniform_square(pixels: Map<(u32, u32), (u8, u8, u8)>, size: u32, color: (u8, u8, u8)) -> bool {
    &&& forall|x: u32, y: u32| #[trigger] pixels.dom().contains((x, y)) <==> x < size && y < size
    &&& forall|x: u32, y: u32| x < size && y < size ==> #[trigger] pixels[(x, y)] == color
}

/// Calls `image::ImageBuffer::from_pixel` for a `size` by `size` RGB image.
/// Claimed of it: the image is `size` by `size` and every pixel has
/// `color`. It panics where `3 * size * size` overflows `usize`, which the
/// precondition leaves out.
#[verifier::external_body]
fn filled_canvas(size: u32, color: (u8, u8, u8)) -> (canvas: PngCanvas)
    requires
        3 * size * size <= usize::MAX,
    ensures
        canvas_dimensions(canvas) == (size, size),
        uniform_square(canvas_pixels(canvas), size, color),
{
    PngCanvas { image: ImageBuffer::from_pixel(size, size, Rgb([color.0, color.1, color.2])) }
}

/// Calls `image::ImageBuffer::put_pixel`. Claimed of it: the pixel at
/// `(x, y)` gets `color` and nothing else changes. It panics outside the
/// image, which the precondition leaves out.
#[verifier::external_body]
fn paint_pixel(canvas: &mut PngCanvas, x: u32, y: u32, color: (u8, u8, u8))
    requires
        x < canvas_dimensions(*old(canvas)).0,
        y < canvas_dimensions(*old(canvas)).1,
    ensures
        canvas_dimensions(*final(canvas)) == canvas_dimensions(*old(canvas)),
        canvas_pixels(*final(canvas)) == canvas_pixels(*old(canvas)).insert((x, y), color),
{
    canvas.image.put_pixel(x, y, Rgb([color.0, color.1, color.2]))
}

/// The color of a dark pixel.
pub open spec fn black() -> (u8, u8, u8) {
    (0, 0, 0)
}

/// The color of a light pixel.
pub open spec fn white() -> (u8, u8, u8) {
    (255, 255, 255)
}

/// The color of a pixel that is dark or not.
pub open spec fn shade(dark: bool) -> (u8, u8, u8) {
    if dark { black() } else { white() }
}

/// Whether drawing a matrix of side `width` on a `size`-pixel canvas makes
/// the image crate panic: a matrix without modules leaves nothing to
/// divide the canvas by, and a canvas of `3 * size * size` bytes must fit
/// in `usize`.
pub open spec fn png_panics(width: nat, size: u32) -> bool {
    &&& size > 0
    &&& width <= u32::MAX
    &&& (width == 0 || ((size as int) / (width as int) > 0 && 3 * size * size > usize::MAX))
}

/// The side of the square that each module becomes: the most pixels that
/// let all `width` modules fit on the canvas.
pub open spec fn module_pixels(width: nat, size: u32) -> int {
    (size as int) / (width as int)
}

/// The light margin before the code, which centers it on the canvas.
pub open spec fn canvas_margin(width: nat, size: u32) -> int {
    (size - width * module_pixels(width, size)) / 2
}

/// Whether the pixel at `(px, py)` is dark: it lies in the square of a dark
/// module.
pub open spec fn png_pixel_dark(m: QrMatrix, size: u32, px: int, py: int) -> bool {
    let w = m.size();
    let ppm = module_pixels(w, size);
    let off = canvas_margin(w, size);
    &&& off <= px < off + w * ppm
    &&& off <= py < off + w * ppm
    &&& m.module((px - off) / ppm, (py - off) / ppm)
}

/// Whether `pixels` are those of the PNG of `m` on a `size`-pixel canvas.
pub open spec fn png_pixels(m: QrMatrix, size: u32, pixels: Map<(u32, u32), (u8, u8, u8)>) -> bool {
    &&& forall|x: u32, y: u32| #[trigger] pixels.dom().contains((x, y)) <==> x < size && y < size
    &&& forall|x: u32, y: u32| x < size && y < size ==>
        #[trigger] pixels[(x, y)] == shade(png_pixel_dark(m, size, x as int, y as int))
}

/// Whether `r` is the PNG canvas of `m` on a `size`-pixel canvas, or the
/// refusal: a zero size, a matrix wider than PNG limits, or a canvas with
/// fewer pixels than the matrix has modules.
pub open spec fn png_outcome(m: QrMatrix, size: u32, r: Result<PngCanvas, WifiQrError>) -> bool {
    let w = m.size();
    if size == 0 {
        r matches Err(WifiQrError::ZeroCanvasSize)
    } else if w > u32::MAX {
        r matches Err(WifiQrError::PngDimensionsTooLarge)
    } else if module_pixels(w, size) == 0 {
        r == Err::<PngCanvas, WifiQrError>(WifiQrError::CanvasTooSmall { size: size, modules: w as u32 })
    } else {
        r matches Ok(canvas) && canvas_dimensions(canvas) == (size, size)
            && png_pixels(m, size, canvas_pixels(canvas))
    }
}

/// A pixel coordinate lies in the `k`-th run of `ppm` pixels after `off`
/// exactly when it is past `off` and divides down to `k`.
proof fn lemma_square_coordinate(p: int, off: int, ppm: int, k: int)
    requires
        ppm > 0,
        k >= 0,
    ensures
        (off + k * ppm <= p < off + k * ppm + ppm) <==> (off <= p && (p - off) / ppm == k),
{
    assert(k * ppm >= 0) by (nonlinear_arith)
        requires
            k >= 0,
            ppm > 0,
    ;
    if p >= off {
        let d = p - off;
        let q = d / ppm;
        let r = d % ppm;
        vstd::arithmetic::div_mod::lemma_fundamental_div_mod(d, ppm);
        vstd::arithmetic::div_mod::lemma_mod_pos_bound(d, ppm);
        assert((k * ppm <= d < k * ppm + ppm) <==> q == k) by (nonlinear_arith)
            requires
                d == ppm * q + r,
                0 <= r < ppm,
                ppm > 0,
        ;
    }
}

/// A pixel coordinate lies in the first `w` runs of `ppm` pixels after `off`
/// exactly when it is past `off` and divides down to less than `w`.
proof fn lemma_inside_code(p: int, off: int, ppm: int, w: int)
    requires
        ppm > 0,
        w >= 0,
    ensures
        (off <= p < off + w * ppm) <==> (off <= p && (p - off) / ppm < w),
{
    if p >= off {
        let d = p - off;
        let q = d / ppm;
        let r = d % ppm;
        vstd::arithmetic::div_mod::lemma_fundamental_div_mod(d, ppm);
        vstd::arithmetic::div_mod::lemma_mod_pos_bound(d, ppm);
        assert((d < w * ppm) <==> q < w) by (nonlinear_arith)
            requires
                d == ppm * q + r,
                0 <= r < ppm,
                ppm > 0,
        ;
    }
}

/// Each module becomes a `module_pixels` by `module_pixels` square of the
/// canvas, past the margin: every pixel of the square has the module's color.
pub proof fn lemma_module_square(m: QrMatrix, size: u32, x: int, y: int, i: int, j: int)
    requires
        module_pixels(m.size(), size) > 0,
        0 <= x < m.size(),
        0 <= y < m.size(),
        0 <= i < module_pixels(m.size(), size),
        0 <= j < module_pixels(m.size(), size),
    ensures
        png_pixel_dark(
            m,
            size,
            canvas_margin(m.size(), size) + x * module_pixels(m.size(), size) + i,
            canvas_margin(m.size(), size) + y * module_pixels(m.size(), size) + j,
        ) == m.module(x, y),
{
    let w = m.size() as int;
    let ppm = module_pixels(m.size(), size);
    let off = canvas_margin(m.size(), size);
    let px = off + x * ppm + i;
    let py = off + y * ppm + j;
    lemma_square_coordinate(px, off, ppm, x);
    lemma_square_coordinate(py, off, ppm, y);
    lemma_inside_code(px, off, ppm, w);
    lemma_inside_code(py, off, ppm, w);
}

/// The code is centered: the light margin after it is the margin before it,
/// or one pixel more.
pub proof fn lemma_code_centered(width: nat, size: u32)
    requires
        width > 0,
    ensures
        0 <= canvas_margin(width, size),
        canvas_margin(width, size) + width * module_pixels(width, size) <= size,
        size - (canvas_margin(width, size) + width * module_pixels(width, size)) - canvas_margin(width, size) == 0
            || size - (canvas_margin(width, size) + width * module_pixels(width, size)) - canvas_margin(width, size) == 1,
{
    let ppm = module_pixels(width, size);
    vstd::arithmetic::div_mod::lemma_fundamental_div_mod(size as int, width as int);
    vstd::arithmetic::div_mod::lemma_mod_pos_bound(size as int, width as int);
    assert(width * ppm <= size) by (nonlinear_arith)
        requires
            size == width * ppm + (size as int) % (width as int),
            (size as int) % (width as int) >= 0,
    ;
}

/// The module-square part of the canvas painted black so far, when the
/// modules have been visited row by row up to row `row`, column `col`.
spec fn painted(m: QrMatrix, off: int, ppm: int, row: int, col: int, px: int, py: int) -> bool {
    let mx = (px - off) / ppm;
    let my = (py - off) / ppm;
    &&& off <= px
    &&& off <= py
    &&& mx < m.size()
    &&& my < m.size()
    &&& (my < row || (my == row && mx < col))
    &&& m.module(mx, my)
}

/// Draws the matrix on a white `size` by `size` canvas, each module as a
/// black or white square of `size / width` pixels, the code centered.
pub fn render_png(matrix: &QrMatrix, size: u32) -> (r: Result<PngCanvas, WifiQrError>)
    requires
        !png_panics(matrix.size(), size),
    ensures
        png_outcome(*matrix, size, r),
{
    ensure_canvas_size(size)?;
    let width = matrix.width();
    if width > 0xffff_ffffusize {
        return Err(WifiQrError::PngDimensionsTooLarge);
    }
    let module_count = width as u32;
    let ppm = size / module_count;
    if ppm == 0 {
        return Err(WifiQrError::CanvasTooSmall { size, modules: module_count });
    }
    proof {
        vstd::arithmetic::div_mod::lemma_fundamental_div_mod(size as int, module_count as int);
        vstd::arithmetic::div_mod::lemma_mod_pos_bound(size as int, module_count as int);
        assert(ppm * module_count <= size) by (nonlinear_arith)
            requires
                size == module_count * ppm + size % module_count,
                size % module_count >= 0,
        ;
    }
    let qr_pixels = ppm * module_count;
    let offset = (size - qr_pixels) / 2;
    let ghost m = *matrix;
    let ghost w = width as int;
    let ghost off = offset as int;
    let ghost p = ppm as int;
    assert(off == canvas_margin(m.size(), size) && p == module_pixels(m.size(), size));

    let mut canvas = filled_canvas(size, (255, 255, 255));
    assert forall|px: u32, py: u32| px < size && py < size implies
        #[trigger] canvas_pixels(canvas)[(px, py)] == shade(painted(m, off, p, 0, 0, px as int, py as int)) by {
    }

    let mut y: usize = 0;
    while y < width
        invariant
            m == *matrix,
            w == width,
            width == matrix.size(),
            width == module_count,
            p == ppm,
            ppm > 0,
            off == offset,
            offset + ppm * module_count <= size,
            y <= width,
            canvas_dimensions(canvas) == (size, size),
            forall|x: u32, yy: u32| #[trigger] canvas_pixels(canvas).dom().contains((x, yy)) <==> x < size && yy < size,
            forall|px: u32, py: u32| px < size && py < size ==>
                #[trigger] canvas_pixels(canvas)[(px, py)] == shade(painted(m, off, p, y as int, 0, px as int, py as int)),
        decreases width - y,
    {
        let mut x: usize = 0;
        while x < width
            invariant
                m == *matrix,
                w == width,
                width == matrix.size(),
                width == module_count,
                p == ppm,
                ppm > 0,
                off == offset,
                offset + ppm * module_count <= size,
                y < width,
                x <= width,
                canvas_dimensions(canvas) == (size, size),
                forall|xx: u32, yy: u32| #[trigger] canvas_pixels(canvas).dom().contains((xx, yy)) <==> xx < size && yy < size,
                forall|px: u32, py: u32| px < size && py < size ==>
                    #[trigger] canvas_pixels(canvas)[(px, py)] == shade(painted(m, off, p, y as int, x as int, px as int, py as int)),
            decreases width - x,
        {
            proof {
                crate::matrix::lemma_cell_index(w, x as int, y as int);
            }
            let dark = matrix.is_dark(x, y);
            if dark {
                proof {
                    assert((x as u32) * ppm + ppm <= ppm * module_count) by (nonlinear_arith)
                        requires
                            x < module_count,
                            ppm > 0,
                    ;
                    assert((y as u32) * ppm + ppm <= ppm * module_count) by (nonlinear_arith)
                        requires
                            y < module_count,
                            ppm > 0,
                    ;
                }
                let x0 = offset + (x as u32) * ppm;
                let y0 = offset + (y as u32) * ppm;
                let mut py = y0;
                while py < y0 + ppm
                    invariant
                        m == *matrix,
                        w == width,
                        width == matrix.size(),
                        p == ppm,
                        ppm > 0,
                        off == offset,
                        x0 == offset + x * ppm,
                        y0 == offset + y * ppm,
                        x0 + ppm <= size,
                        y0 + ppm <= size,
                        y0 <= py <= y0 + ppm,
                        canvas_dimensions(canvas) == (size, size),
                        forall|xx: u32, yy: u32| #[trigger] canvas_pixels(canvas).dom().contains((xx, yy)) <==> xx < size && yy < size,
                        forall|px: u32, qy: u32| px < size && qy < size ==>
                            #[trigger] canvas_pixels(canvas)[(px, qy)] == shade(
                                painted(m, off, p, y as int, x as int, px as int, qy as int)
                                || (y0 <= qy < py && x0 <= px < x0 + ppm)),
                    decreases y0 + ppm - py,
                {
                    let mut px = x0;
                    while px < x0 + ppm
                        invariant
                            m == *matrix,
                            p == ppm,
                            ppm > 0,
                            off == offset,
                            x0 + ppm <= size,
                            y0 + ppm <= size,
                            y0 <= py < y0 + ppm,
                            x0 <= px <= x0 + ppm,
                            canvas_dimensions(canvas) == (size, size),
                            forall|xx: u32, yy: u32| #[trigger] canvas_pixels(canvas).dom().contains((xx, yy)) <==> xx < size && yy < size,
                            forall|qx: u32, qy: u32| qx < size && qy < size ==>
                                #[trigger] canvas_pixels(canvas)[(qx, qy)] == shade(
                                    painted(m, off, p, y as int, x as int, qx as int, qy as int)
                                    || (y0 <= qy < py && x0 <= qx < x0 + ppm)
                                    || (qy == py && x0 <= qx < px)),
                        decreases x0 + ppm - px,
                    {
                        paint_pixel(&mut canvas, px, py, (0, 0, 0));
                        px = px + 1;
                    }
                    py = py + 1;
                }
                assert forall|qx: u32, qy: u32| qx < size && qy < size implies
                    #[trigger] canvas_pixels(canvas)[(qx, qy)] == shade(painted(m, off, p, y as int, x + 1, qx as int, qy as int)) by {
                    lemma_square_coordinate(qx as int, off, p, x as int);
                    lemma_square_coordinate(qy as int, off, p, y as int);
                }
            } else {
                assert forall|qx: u32, qy: u32| qx < size && qy < size implies
                    #[trigger] canvas_pixels(canvas)[(qx, qy)] == shade(painted(m, off, p, y as int, x + 1, qx as int, qy as int)) by {
                    if painted(m, off, p, y as int, x + 1, qx as int, qy as int) {
                        if (qy - off) / p == y && (qx - off) / p == x {
                            assert(m.module(x as int, y as int));
                        }
                    }
                }
            }
            x = x + 1;
        }
        assert forall|qx: u32, qy: u32| qx < size && qy < size implies
            #[trigger] canvas_pixels(canvas)[(qx, qy)] == shade(painted(m, off, p, y + 1, 0, qx as int, qy as int)) by {
            assert(painted(m, off, p, y as int, w, qx as int, qy as int) == painted(m, off, p, y + 1, 0, qx as int, qy as int));
        }
        y = y + 1;
    }
    assert forall|qx: u32, qy: u32| qx < size && qy < size implies
        #[trigger] canvas_pixels(canvas)[(qx, qy)] == shade(png_pixel_dark(m, size, qx as int, qy as int)) by {
        lemma_inside_code(qx as int, off, p, w);
        lemma_inside_code(qy as int, off, p, w);
        assert(painted(m, off, p, w, 0, qx as int, qy as int) == png_pixel_dark(m, size, qx as int, qy as int));
    }
    Ok(canvas)
}

} // verus!
