//! SVG documents: one square path segment per dark module, scaled to the
//! canvas by the view box.

use vstd::prelude::*;
use crate::error::WifiQrError;
use crate::matrix::{dark_positions, QrMatrix};
use crate::text::{decimal, push_decimal};

verus! {

/// The canvas size must be positive.
pub fn ensure_canvas_size(size: u32) -> (r: Result<(), WifiQrError>)
    ensures
        size == 0 <==> r matches Err(WifiQrError::ZeroCanvasSize),
        size != 0 <==> r is Ok,
{
    if size == 0 {
        return Err(WifiQrError::ZeroCanvasSize);
    }
    Ok(())
}

/// The path segment that draws the unit square of the module at `(x, y)`.
pub open spec fn module_square(x: usize, y: usize) -> Seq<char> {
    "M"@ + decimal(x as nat) + " "@ + decimal(y as nat) + "h1v1H"@ + decimal(x as nat) + "z"@
}

/// A module's segment draws its unit square: it moves to the module's
/// corner `(x, y)` (`M x y`), and the horizontal line that closes the square
/// returns to the same column (`H x`) before `z` closes it: the number after
/// `M` and the number after `H` are both the module's column.
pub proof fn lemma_square_returns_to_its_column(x: usize, y: usize)
    ensures
        ({
            let s = module_square(x, y);
            let n = decimal(x as nat).len() as int;
            &&& s[0] == 'M'
            &&& s.subrange(1, 1 + n) == decimal(x as nat)
            &&& s[1 + n] == ' '
            &&& s.subrange(1 + n + 1, 1 + n + 1 + decimal(y as nat).len()) == decimal(y as nat)
            &&& s[s.len() - 2 - n] == 'H'
            &&& s.subrange(s.len() - 1 - n, s.len() - 1) == decimal(x as nat)
            &&& s[s.len() - 1] == 'z'
        }),
{
    reveal_strlit("M");
    reveal_strlit(" ");
    reveal_strlit("h1v1H");
    reveal_strlit("z");
    let s = module_square(x, y);
    let dx = decimal(x as nat);
    let dy = decimal(y as nat);
    let n = dx.len() as int;
    assert(s =~= seq!['M'] + dx + seq![' '] + dy + seq!['h', '1', 'v', '1', 'H'] + dx + seq!['z']);
    assert(s.subrange(1, 1 + n) =~= dx);
    assert(s.subrange(1 + n + 1, 1 + n + 1 + dy.len()) =~= dy);
    assert(s.subrange(s.len() - 1 - n, s.len() - 1) =~= dx);
}

/// The path data that draws the unit squares of `positions`, in order.
pub open spec fn squares_path(positions: Seq<(usize, usize)>) -> Seq<char>
    decreases positions.len(),
{
    if positions.len() == 0 {
        seq![]
    } else {
        squares_path(positions.drop_last()) + module_square(positions.last().0, positions.last().1)
    }
}

/// The SVG document of a `size` by `size` canvas whose view box is `width`
/// modules wide, white, with `path` filled black.
pub open spec fn svg_document(size: u32, width: usize, path: Seq<char>) -> Seq<char> {
    "<svg xmlns=\"http://www.w3.org/2000/svg\" width=\""@ + decimal(size as nat) + "\" height=\""@
        + decimal(size as nat) + "\" viewBox=\"0 0 "@ + decimal(width as nat) + " "@
        + decimal(width as nat) + "\" shape-rendering=\"crispEdges\">\n<rect width=\"100%\" height=\"100%\" fill=\"#fff\"/>\n<path d=\""@
        + path + "\" fill=\"#000\"/>\n</svg>\n"@
}

/// The SVG document of the matrix on a `size` by `size` canvas: a path with
/// one unit square per dark module, row by row.
pub fn render_svg(matrix: &QrMatrix, size: u32) -> (r: String)
    ensures
        r@ == svg_document(size, matrix.size() as usize,
            squares_path(dark_positions(*matrix, matrix.size() * matrix.size()))),
{
    let positions = matrix.dark_modules();
    let mut path = String::new();
    let mut i: usize = 0;
    while i < positions.len()
        invariant
            i <= positions@.len(),
            path@ == squares_path(positions@.subrange(0, i as int)),
        decreases positions@.len() - i,
    {
        let (x, y) = positions[i];
        path.append("M");
        push_decimal(&mut path, x as u64);
        path.append(" ");
        push_decimal(&mut path, y as u64);
        path.append("h1v1H");
        push_decimal(&mut path, x as u64);
        path.append("z");
        assert(positions@.subrange(0, i + 1).drop_last() =~= positions@.subrange(0, i as int));
        i = i + 1;
    }
    assert(positions@.subrange(0, positions@.len() as int) =~= positions@);

    let width = matrix.width();
    let mut svg = "<svg xmlns=\"http://www.w3.org/2000/svg\" width=\"".to_owned();
    push_decimal(&mut svg, size as u64);
    svg.append("\" height=\"");
    push_decimal(&mut svg, size as u64);
    svg.append("\" viewBox=\"0 0 ");
    push_decimal(&mut svg, width as u64);
    svg.append(" ");
    push_decimal(&mut svg, width as u64);
    svg.append("\" shape-rendering=\"crispEdges\">\n<rect width=\"100%\" height=\"100%\" fill=\"#fff\"/>\n<path d=\"");
    svg.append(path.as_str());
    svg.append("\" fill=\"#000\"/>\n</svg>\n");
    svg
}

} // verus!
