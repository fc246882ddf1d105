//! The QR module grid: encoding a payload with the `qrcode` crate, adding
//! the quiet-zone border, and reading modules back.

use vstd::prelude::*;
use crate::error::WifiQrError;
use qrcode::types::{Color, EcLevel, QrError};
use qrcode::QrCode;

verus! {

/// How much of a damaged code can be recovered.
#[derive(Clone, Copy, Debug, PartialEq, Eq, Structural)]
pub enum ErrorCorrection {
    L,
    M,
    Q,
    H,
}

#[verifier::external_type_specification]
#[verifier::external_body]
pub struct ExQrError(QrError);

/// The QR symbol that the `qrcode` crate draws for `data` at `level`: its
/// width in modules and its modules row by row (`true` is dark), or `None`
/// where the data does not fit in any symbol.
pub uninterp spec fn qr_symbol(data: Seq<u8>, level: ErrorCorrection) -> Option<(usize, Seq<bool>)>;

/// Calls `qrcode::QrCode::with_error_correction_level` and reads the
/// symbol's `width()` and `to_colors()`. Claimed of it: the outcome is
/// `qr_symbol(data, level)`, and the colors of a symbol are `width * width`
/// modules (the crate's canvas holds that many and masking keeps them).
#[verifier::external_body]
fn encode_symbol(data: &[u8], level: ErrorCorrection) -> (r: Result<(usize, Vec<bool>), QrError>)
    ensures
        match r {
            Ok((width, colors)) => qr_symbol(data@, level) == Some((width, colors@))
                && colors@.len() == width * width,
            Err(_) => qr_symbol(data@, level) is None,
        },
{
    let ec = match level {
        ErrorCorrection::L => EcLevel::L,
        ErrorCorrection::M => EcLevel::M,
        ErrorCorrection::Q => EcLevel::Q,
        ErrorCorrection::H => EcLevel::H,
    };
    let code = QrCode::with_error_correction_level(data, ec)?;
    let colors = code.to_colors().iter().map(|c| *c == Color::Dark).collect();
    Ok((code.width(), colors))
}

/// A square grid of modules, `true` for dark, stored row by row.
pub struct QrMatrix {
    width: usize,
    modules: Vec<bool>,
}

/// The module of a row-by-row grid of side `width` at column `x`, row `y`.
pub open spec fn cell(modules: Seq<bool>, width: int, x: int, y: int) -> bool {
    modules[y * width + x]
}

/// Row-major cell indices of a grid are within the grid.
pub proof fn lemma_cell_index(width: int, x: int, y: int)
    requires
        0 <= x < width,
        0 <= y < width,
    ensures
        0 <= y * width + x < width * width,
{
    assert(y * width + x < width * width) by (nonlinear_arith)
        requires
            0 <= x < width,
            0 <= y < width,
    ;
    assert(0 <= y * width) by (nonlinear_arith)
        requires
            0 <= y,
            0 <= width,
    ;
}

/// Distinct cells of a grid have distinct row-major indices.
pub proof fn lemma_cell_index_unique(width: int, x1: int, y1: int, x2: int, y2: int)
    requires
        0 <= x1 < width,
        0 <= x2 < width,
        0 <= y1,
        0 <= y2,
        y1 * width + x1 == y2 * width + x2,
    ensures
        x1 == x2,
        y1 == y2,
{
    if y1 < y2 {
        assert(y1 * width + x1 < y2 * width + x2) by (nonlinear_arith)
            requires
                0 <= x1 < width,
                0 <= x2,
                y1 < y2,
        ;
    } else if y2 < y1 {
        assert(y2 * width + x2 < y1 * width + x1) by (nonlinear_arith)
            requires
                0 <= x2 < width,
                0 <= x1,
                y2 < y1,
        ;
    }
}

/// Whether a symbol of side `inner` with `border` light modules on every
/// side still has a width and an area that fit in `usize`.
pub open spec fn bordered_fits(inner: int, border: int) -> bool {
    &&& 2 * border <= usize::MAX
    &&& inner + 2 * border <= usize::MAX
    &&& (inner + 2 * border) * (inner + 2 * border) <= usize::MAX
}

/// The module at `(x, y)` of a symbol of side `inner` surrounded by `border`
/// light modules: dark only inside the symbol where the symbol is dark.
pub open spec fn bordered_module(inner: int, colors: Seq<bool>, border: int, x: int, y: int) -> bool {
    &&& border <= x < border + inner
    &&& border <= y < border + inner
    &&& colors[(y - border) * inner + (x - border)]
}

/// The bordered module, when the symbol has been copied up to row `row`,
/// column `col`; modules not copied yet are light.
spec fn copied_module(inner: int, colors: Seq<bool>, border: int, row: int, col: int, x: int, y: int) -> bool {
    &&& bordered_module(inner, colors, border, x, y)
    &&& ((y - border) < row || ((y - border) == row && (x - border) < col))
}

/// What bordering a symbol gives: the bordered grid when its dimensions fit,
/// and `DimensionsOverflow` when they do not.
pub open spec fn bordered_outcome(inner: int, colors: Seq<bool>, border: int, r: Result<QrMatrix, WifiQrError>) -> bool {
    match r {
        Ok(m) => {
            &&& bordered_fits(inner, border)
            &&& m.size() == inner + 2 * border
            &&& forall|x: int, y: int| 0 <= x < m.size() && 0 <= y < m.size() ==>
                #[trigger] m.module(x, y) == bordered_module(inner, colors, border, x, y)
        },
        Err(e) => e is DimensionsOverflow && !bordered_fits(inner, border),
    }
}

/// The coordinates `(x, y)` of the dark modules among the first `count`
/// modules of `m` in row-major order (row by row, each row left to right).
pub open spec fn dark_positions(m: QrMatrix, count: nat) -> Seq<(usize, usize)>
    decreases count,
{
    if count == 0 {
        seq![]
    } else {
        let i = count - 1;
        let w = m.size() as int;
        let earlier = dark_positions(m, (count - 1) as nat);
        if m.module(i % w, i / w) {
            earlier.push(((i % w) as usize, (i / w) as usize))
        } else {
            earlier
        }
    }
}

impl QrMatrix {
    #[verifier::type_invariant]
    spec fn well_formed(self) -> bool {
        self.modules@.len() == self.width * self.width
    }

    /// The number of modules per side.
    pub closed spec fn size(self) -> nat {
        self.width as nat
    }

    /// The side of a grid fits in `usize`.
    pub proof fn lemma_size_fits(self)
        ensures
            self.size() <= usize::MAX,
    {
    }

    /// The module at column `x`, row `y` (`true` for dark).
    pub closed spec fn module(self, x: int, y: int) -> bool {
        cell(self.modules@, self.width as int, x, y)
    }

    /// The modules row by row.
    pub closed spec fn modules(self) -> Seq<bool> {
        self.modules@
    }

    /// The grid is stored row by row: the module at column `x`, row `y` is
    /// entry `y * size() + x` of the modules.
    pub proof fn lemma_row_major(self, x: int, y: int)
        ensures
            self.module(x, y) == self.modules()[y * self.size() + x],
    {
    }

    /// A grid of side `width` from its modules row by row, when there are
    /// `width * width` of them.
    pub fn new(width: usize, modules: Vec<bool>) -> (r: Option<QrMatrix>)
        ensures
            match r {
                Some(m) => {
                    &&& modules@.len() == width * width
                    &&& m.size() == width
                    &&& m.modules() == modules@
                    &&& forall|x: int, y: int| #[trigger] m.module(x, y) == modules@[y * width + x]
                },
                None => modules@.len() != width * width,
            },
    {
        if width.checked_mul(width) == Some(modules.len()) {
            Some(QrMatrix { width, modules })
        } else {
            None
        }
    }

    /// The number of modules per side.
    pub fn width(&self) -> (r: usize)
        ensures
            r == self.size(),
    {
        self.width
    }

    /// Whether the module at column `x`, row `y` is dark.
    pub fn is_dark(&self, x: usize, y: usize) -> (r: bool)
        requires
            y * self.size() + x < self.size() * self.size(),
        ensures
            r == self.module(x as int, y as int),
    {
        proof {
            use_type_invariant(self);
            assert(self.modules@.len() == self.modules.len());
            assert(0 <= y * self.width) by (nonlinear_arith);
        }
        self.modules[y * self.width + x]
    }

    /// The coordinates of the dark modules, row by row, each row from left
    /// to right.
    pub fn dark_modules(&self) -> (r: Vec<(usize, usize)>)
        ensures
            r@ == dark_positions(*self, self.size() * self.size()),
    {
        proof {
            use_type_invariant(self);
        }
        let w = self.width;
        let area = self.modules.len();
        let mut positions: Vec<(usize, usize)> = Vec::new();
        let mut k: usize = 0;
        while k < area
            invariant
                w == self.size(),
                area == w * w,
                k <= area,
                positions@ == dark_positions(*self, k as nat),
            decreases area - k,
        {
            let x = k % w;
            let y = k / w;
            proof {
                vstd::arithmetic::div_mod::lemma_fundamental_div_mod(k as int, w as int);
                assert(y * w + x == k) by (nonlinear_arith)
                    requires
                        k == w * y + x,
                ;
            }
            if self.is_dark(x, y) {
                positions.push((x, y));
            }
            k = k + 1;
        }
        positions
    }

    /// Adds `border` light modules on every side of a symbol of side
    /// `inner_width` whose modules are `colors`, row by row.
    pub fn from_code(inner_width: usize, colors: &Vec<bool>, border: usize) -> (r: Result<QrMatrix, WifiQrError>)
        requires
            colors@.len() == inner_width * inner_width,
        ensures
            bordered_outcome(inner_width as int, colors@, border as int, r),
    {
        let padding = match border.checked_mul(2) {
            Some(p) => p,
            None => return Err(WifiQrError::DimensionsOverflow),
        };
        let width = match inner_width.checked_add(padding) {
            Some(w) => w,
            None => return Err(WifiQrError::DimensionsOverflow),
        };
        let area = match width.checked_mul(width) {
            Some(a) => a,
            None => return Err(WifiQrError::DimensionsOverflow),
        };
        let mut modules: Vec<bool> = vec![false; area];
        let ghost inner = inner_width as int;
        let ghost b = border as int;
        let ghost w = width as int;
        assert forall|x: int, y: int| 0 <= x < w && 0 <= y < w implies
            #[trigger] cell(modules@, w, x, y) == copied_module(inner, colors@, b, 0, 0, x, y) by {
            lemma_cell_index(w, x, y);
        }

        let mut y: usize = 0;
        while y < inner_width
            invariant
                inner == inner_width,
                b == border,
                w == width,
                width == inner_width + 2 * border,
                area == width * width,
                colors@.len() == inner_width * inner_width,
                modules@.len() == area,
                y <= inner_width,
                forall|x: int, yy: int| 0 <= x < w && 0 <= yy < w ==>
                    #[trigger] cell(modules@, w, x, yy) == copied_module(inner, colors@, b, y as int, 0, x, yy),
            decreases inner_width - y,
        {
            let mut x: usize = 0;
            while x < inner_width
                invariant
                    inner == inner_width,
                    b == border,
                    w == width,
                    width == inner_width + 2 * border,
                    area == width * width,
                    colors@.len() == inner_width * inner_width,
                    modules@.len() == area,
                    y < inner_width,
                    x <= inner_width,
                    forall|xx: int, yy: int| 0 <= xx < w && 0 <= yy < w ==>
                        #[trigger] cell(modules@, w, xx, yy) == copied_module(inner, colors@, b, y as int, x as int, xx, yy),
                decreases inner_width - x,
            {
                proof {
                    lemma_cell_index(inner, x as int, y as int);
                    lemma_cell_index(w, (x + border) as int, (y + border) as int);
                    assert(colors@.len() == colors.len());
                    assert(modules@.len() == modules.len());
                }
                let source_idx = y * inner_width + x;
                let target_x = x + border;
                let target_y = y + border;
                let target_idx = target_y * width + target_x;
                let dark = colors[source_idx];
                let ghost before = modules@;
                modules.set(target_idx, dark);
                assert forall|xx: int, yy: int| 0 <= xx < w && 0 <= yy < w implies
                    #[trigger] cell(modules@, w, xx, yy) == copied_module(inner, colors@, b, y as int, x + 1, xx, yy) by {
                    lemma_cell_index(w, xx, yy);
                    if yy * w + xx == target_idx as int {
                        lemma_cell_index_unique(w, xx, yy, target_x as int, target_y as int);
                    } else {
                        assert(cell(before, w, xx, yy) == copied_module(inner, colors@, b, y as int, x as int, xx, yy));
                        assert(!(xx == target_x && yy == target_y));
                    }
                }
                x = x + 1;
            }
            assert forall|xx: int, yy: int| 0 <= xx < w && 0 <= yy < w implies
                #[trigger] cell(modules@, w, xx, yy) == copied_module(inner, colors@, b, y + 1, 0, xx, yy) by {
                assert(cell(modules@, w, xx, yy) == copied_module(inner, colors@, b, y as int, inner, xx, yy));
            }
            y = y + 1;
        }
        let m = QrMatrix { width, modules };
        assert forall|xx: int, yy: int| 0 <= xx < m.size() && 0 <= yy < m.size() implies
            #[trigger] m.module(xx, yy) == bordered_module(inner, colors@, b, xx, yy) by {
            assert(cell(m.modules@, w, xx, yy) == copied_module(inner, colors@, b, inner, 0, xx, yy));
        }
        Ok(m)
    }

    /// Encodes `payload` as a QR code at the given error-correction level
    /// and surrounds it with `border` light modules.
    pub fn encode(payload: &str, error_correction: ErrorCorrection, border: usize) -> (r: Result<QrMatrix, WifiQrError>)
        ensures
            match qr_symbol(vstd::utf8::encode_utf8(payload@), error_correction) {
                Some((inner_width, colors)) => bordered_outcome(inner_width as int, colors, border as int, r),
                None => r matches Err(WifiQrError::QrGeneration),
            },
    {
        let (inner_width, colors) = match encode_symbol(payload.as_bytes(), error_correction) {
            Ok(symbol) => symbol,
            Err(_) => return Err(WifiQrError::QrGeneration),
        };
        QrMatrix::from_code(inner_width, &colors, border)
    }
}

/// The border around an encoded symbol is light: no dark module lies
/// outside the symbol.
pub proof fn lemma_quiet_zone_is_light(inner: int, colors: Seq<bool>, border: int, m: QrMatrix, x: int, y: int)
    requires
        bordered_outcome(inner, colors, border, Ok(m)),
        0 <= x < m.size(),
        0 <= y < m.size(),
        x < border || y < border || x >= border + inner || y >= border + inner,
    ensures
        !m.module(x, y),
{
}

/// Inside the border the symbol is copied unchanged: its module at column
/// `i`, row `j` is the bordered module at `(border + i, border + j)`.
pub proof fn lemma_symbol_is_copied(inner: int, colors: Seq<bool>, border: int, m: QrMatrix, i: int, j: int)
    requires
        bordered_outcome(inner, colors, border, Ok(m)),
        0 <= i < inner,
        0 <= j < inner,
        0 <= border,
    ensures
        m.module(border + i, border + j) == colors[j * inner + i],
{
    assert(m.module(border + i, border + j) == bordered_module(inner, colors, border, border + i, border + j));
    assert(border + j - border == j && border + i - border == i);
}

/// The row-major index `i` of a grid of side `width` is the cell at column
/// `i % width`, row `i / width`.
proof fn lemma_index_coordinates(width: int, i: int, x: int, y: int)
    requires
        width > 0,
        0 <= i,
        0 <= x < width,
        0 <= y,
    ensures
        (x == i % width && y == i / width) <==> y * width + x == i,
{
    vstd::arithmetic::div_mod::lemma_fundamental_div_mod(i, width);
    vstd::arithmetic::div_mod::lemma_mod_pos_bound(i, width);
    vstd::arithmetic::div_mod::lemma_div_pos_is_pos(i, width);
    assert(width * (i / width) == (i / width) * width) by (nonlinear_arith);
    if y * width + x == i {
        lemma_cell_index_unique(width, x, y, i % width, i / width);
    }
}

/// The dark-module list holds exactly the dark modules: `(x, y)` is listed
/// among the first `count` modules when it is a cell of the grid, comes
/// before index `count` in row-major order, and is dark.
pub proof fn lemma_dark_positions_members(m: QrMatrix, count: nat, x: usize, y: usize)
    requires
        count <= m.size() * m.size(),
    ensures
        dark_positions(m, count).contains((x, y)) <==> (x < m.size() && y < m.size()
            && y * m.size() + x < count && m.module(x as int, y as int)),
    decreases count,
{
    let w = m.size() as int;
    if count == 0 {
        assert(dark_positions(m, count) =~= Seq::<(usize, usize)>::empty());
        if x < w && y < w {
            assert(0 <= y * w) by (nonlinear_arith)
                requires
                    0 <= y,
                    0 <= w,
            ;
        }
    } else {
        let i = count - 1;
        lemma_dark_positions_members(m, (count - 1) as nat, x, y);
        assert(w > 0) by (nonlinear_arith)
            requires
                count <= w * w,
                count > 0,
                w >= 0,
        ;
        vstd::arithmetic::div_mod::lemma_mod_pos_bound(i, w);
        vstd::arithmetic::div_mod::lemma_div_pos_is_pos(i, w);
        vstd::arithmetic::div_mod::lemma_fundamental_div_mod(i, w);
        assert(i / w < w) by (nonlinear_arith)
            requires
                i == w * (i / w) + i % w,
                0 <= i % w,
                i < w * w,
                w > 0,
        ;
        m.lemma_size_fits();
        let earlier = dark_positions(m, (count - 1) as nat);
        let e = ((i % w) as usize, (i / w) as usize);
        if x < w {
            lemma_index_coordinates(w, i, x as int, y as int);
        }
        if m.module(i % w, i / w) {
            assert(dark_positions(m, count) == earlier.push(e));
            assert(earlier.push(e).contains((x, y)) <==> (earlier.contains((x, y)) || e == (x, y))) by {
                if earlier.push(e).contains((x, y)) {
                    let k = choose|k: int| 0 <= k < earlier.push(e).len() && earlier.push(e)[k] == (x, y);
                    if k < earlier.len() {
                        assert(earlier[k] == (x, y));
                    }
                }
                if earlier.contains((x, y)) {
                    let k = choose|k: int| 0 <= k < earlier.len() && earlier[k] == (x, y);
                    assert(earlier.push(e)[k] == (x, y));
                }
                if e == (x, y) {
                    assert(earlier.push(e)[earlier.len() as int] == (x, y));
                }
            }
        }
    }
}

} // verus!
