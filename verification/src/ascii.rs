//! Terminal text art: every module becomes a cell of text, dark modules a
//! visible text of at least two columns and light ones as many spaces.

use vstd::prelude::*;
use crate::error::WifiQrError;
use crate::matrix::{lemma_cell_index, QrMatrix};
use crate::text::{repeat_text, repeated};
use unicode_width::UnicodeWidthStr;

verus! {

/// The text that dark modules are drawn with unless another is asked for.
pub const DEFAULT_ASCII_CHAR: &'static str = "\u{2b1c}";

/// The fewest terminal columns that a cell takes.
pub const MIN_ASCII_CELL_WIDTH: usize = 2;

/// Whether `c` is a control character: the general category `Cc`, which
/// is U+0000 to U+001F and U+007F to U+009F, as `char::is_control` tests.
pub open spec fn control_char(c: char) -> bool {
    c <= '\u{1f}' || ('\u{7f}' <= c && c <= '\u{9f}')
}

/// Whether `c` has the Unicode `White_Space` property, as
/// `char::is_whitespace` tests: tab to carriage return, space, next line,
/// no-break space, Ogham space mark, the spaces U+2000 to U+200A, line and
/// paragraph separators, narrow no-break space, medium mathematical space
/// and ideographic space.
pub open spec fn whitespace_char(c: char) -> bool {
    ||| ('\u{9}' <= c && c <= '\u{d}')
    ||| c == ' '
    ||| c == '\u{85}'
    ||| c == '\u{a0}'
    ||| c == '\u{1680}'
    ||| ('\u{2000}' <= c && c <= '\u{200a}')
    ||| c == '\u{2028}'
    ||| c == '\u{2029}'
    ||| c == '\u{202f}'
    ||| c == '\u{205f}'
    ||| c == '\u{3000}'
}

/// The number of terminal columns that `text` takes, as
/// `unicode_width::UnicodeWidthStr::width` counts them.
pub uninterp spec fn display_width(text: Seq<char>) -> usize;

/// Whether `c` is a control character.
pub fn is_control(c: char) -> (r: bool)
    ensures
        r == control_char(c),
{
    c <= '\u{1f}' || ('\u{7f}' <= c && c <= '\u{9f}')
}

/// Whether `c` is a whitespace character.
pub fn is_whitespace(c: char) -> (r: bool)
    ensures
        r == whitespace_char(c),
{
    ('\u{9}' <= c && c <= '\u{d}') || c == ' ' || c == '\u{85}' || c == '\u{a0}'
        || c == '\u{1680}' || ('\u{2000}' <= c && c <= '\u{200a}') || c == '\u{2028}'
        || c == '\u{2029}' || c == '\u{202f}' || c == '\u{205f}' || c == '\u{3000}'
}

/// Calls `unicode_width::UnicodeWidthStr::width`. Claimed of it: the
/// outcome is `display_width(text)`.
#[verifier::external_body]
fn text_width(text: &str) -> (r: usize)
    ensures
        r == display_width(text@),
{
    UnicodeWidthStr::width(text)
}

/// The text of a dark cell, given the columns that `dark` takes: `dark`
/// itself, or `dark` twice where it is narrower than two columns.
pub open spec fn dark_cell_text(dark: Seq<char>, width: nat) -> Seq<char> {
    if width < MIN_ASCII_CELL_WIDTH {
        repeated(dark, MIN_ASCII_CELL_WIDTH as nat)
    } else {
        dark
    }
}

/// The text of a dark cell, given the columns that `dark` takes.
pub fn dark_cell(dark: &str, width: usize) -> (r: String)
    ensures
        r@ == dark_cell_text(dark@, width as nat),
{
    if width < MIN_ASCII_CELL_WIDTH {
        repeat_text(dark, MIN_ASCII_CELL_WIDTH)
    } else {
        dark.to_owned()
    }
}

/// The text of a light cell that takes `width` columns: that many spaces.
pub fn light_cell(width: usize) -> (r: String)
    ensures
        r@ == repeated(" "@, width as nat),
{
    repeat_text(" ", width)
}

/// Whether some character of `text` is a control character.
fn has_control(text: &str) -> (r: bool)
    ensures
        r == exists|i: int| 0 <= i < text@.len() && control_char(#[trigger] text@[i]),
{
    let n = text.unicode_len();
    let mut i: usize = 0;
    while i < n
        invariant
            i <= n,
            n == text@.len(),
            forall|j: int| 0 <= j < i ==> !control_char(#[trigger] text@[j]),
        decreases n - i,
    {
        if is_control(text.get_char(i)) {
            return true;
        }
        i = i + 1;
    }
    false
}

/// Whether every character of `text` is whitespace.
fn all_whitespace(text: &str) -> (r: bool)
    ensures
        r == forall|i: int| 0 <= i < text@.len() ==> whitespace_char(#[trigger] text@[i]),
{
    let n = text.unicode_len();
    let mut i: usize = 0;
    while i < n
        invariant
            i <= n,
            n == text@.len(),
            forall|j: int| 0 <= j < i ==> whitespace_char(#[trigger] text@[j]),
        decreases n - i,
    {
        if !is_whitespace(text.get_char(i)) {
            return false;
        }
        i = i + 1;
    }
    true
}

/// The texts that dark and light modules are drawn with.
pub struct AsciiStyle {
    dark: String,
    light: String,
}

/// The dark and light cells for the dark-module text `dark`: refused when
/// it is empty, holds a control character, holds nothing but whitespace,
/// or takes no columns; else its dark cell and as many spaces as that cell
/// takes columns.
pub open spec fn style_cells(dark: Seq<char>) -> Result<(Seq<char>, Seq<char>), WifiQrError> {
    if dark.len() == 0 {
        Err(WifiQrError::EmptyAsciiChar)
    } else if exists|i: int| 0 <= i < dark.len() && control_char(#[trigger] dark[i]) {
        Err(WifiQrError::ControlAsciiChar)
    } else if forall|i: int| 0 <= i < dark.len() ==> whitespace_char(#[trigger] dark[i]) {
        Err(WifiQrError::InvisibleAsciiChar)
    } else if display_width(dark) == 0 {
        Err(WifiQrError::ZeroWidthAsciiChar)
    } else {
        let cell = dark_cell_text(dark, display_width(dark) as nat);
        Ok((cell, repeated(" "@, display_width(cell) as nat)))
    }
}

/// The cells of an accepted text: a text of one column is written twice,
/// a wider one once, and the light cell is nothing but spaces, as many as
/// the dark cell takes columns. The text is refused exactly when it is
/// empty, holds a control character, holds only whitespace, or takes no
/// columns.
pub proof fn lemma_style_cells_shape(dark: Seq<char>)
    ensures
        style_cells(dark) is Err <==> (dark.len() == 0
            || (exists|i: int| 0 <= i < dark.len() && control_char(#[trigger] dark[i]))
            || (forall|i: int| 0 <= i < dark.len() ==> whitespace_char(#[trigger] dark[i]))
            || display_width(dark) == 0),
        style_cells(dark) matches Ok((d, l)) ==> {
            &&& (display_width(dark) == 1 ==> d == dark + dark)
            &&& (display_width(dark) >= 2 ==> d == dark)
            &&& l.len() == display_width(d)
            &&& forall|i: int| 0 <= i < l.len() ==> #[trigger] l[i] == ' '
        },
{
    reveal_strlit(" ");
    if let Ok((d, l)) = style_cells(dark) {
        assert(repeated(dark, 2) =~= dark + dark) by {
            assert(repeated(dark, 0) =~= Seq::<char>::empty());
            assert(repeated(dark, 1) =~= dark);
        }
        lemma_spaces(display_width(d) as nat);
    }
}

/// `n` spaces in a row are `n` characters, each a space.
proof fn lemma_spaces(n: nat)
    ensures
        repeated(" "@, n).len() == n,
        forall|i: int| 0 <= i < n ==> #[trigger] repeated(" "@, n)[i] == ' ',
    decreases n,
{
    reveal_strlit(" ");
    if n > 0 {
        lemma_spaces((n - 1) as nat);
        assert forall|i: int| 0 <= i < n implies #[trigger] repeated(" "@, n)[i] == ' ' by {
            if i < n - 1 {
                assert(repeated(" "@, n)[i] == repeated(" "@, (n - 1) as nat)[i]);
            }
        }
    }
}

/// Whether `r` is the style, or the refusal, for the dark-module text `dark`.
pub open spec fn style_outcome(dark: Seq<char>, r: Result<AsciiStyle, WifiQrError>) -> bool {
    match style_cells(dark) {
        Ok((d, l)) => r matches Ok(style) && style.dark_text() == d && style.light_text() == l,
        Err(e) => r == Err::<AsciiStyle, WifiQrError>(e),
    }
}

impl AsciiStyle {
    /// The text of a dark cell.
    pub closed spec fn dark_text(self) -> Seq<char> {
        self.dark@
    }

    /// The text of a light cell.
    pub closed spec fn light_text(self) -> Seq<char> {
        self.light@
    }

    /// The style for the dark-module text `dark`, if it is a visible text.
    pub fn new(dark: &str) -> (r: Result<AsciiStyle, WifiQrError>)
        ensures
            style_outcome(dark@, r),
    {
        let n = dark.unicode_len();
        if n == 0 {
            return Err(WifiQrError::EmptyAsciiChar);
        }
        if has_control(dark) {
            return Err(WifiQrError::ControlAsciiChar);
        }
        if all_whitespace(dark) {
            return Err(WifiQrError::InvisibleAsciiChar);
        }

        let width = text_width(dark);
        if width == 0 {
            return Err(WifiQrError::ZeroWidthAsciiChar);
        }
        let dark_text = dark_cell(dark, width);
        let light = light_cell(text_width(dark_text.as_str()));
        Ok(AsciiStyle { dark: dark_text, light })
    }
}

/// The first `count` cells of row `y`, dark modules drawn as `dark` and
/// light ones as `light`.
pub open spec fn ascii_row(m: QrMatrix, y: int, count: nat, dark: Seq<char>, light: Seq<char>) -> Seq<char>
    decreases count,
{
    if count == 0 {
        seq![]
    } else {
        ascii_row(m, y, (count - 1) as nat, dark, light)
            + (if m.module(count - 1, y) { dark } else { light })
    }
}

/// The first `rows` rows of the art, each row's cells followed by a line
/// break.
pub open spec fn ascii_rows(m: QrMatrix, rows: nat, dark: Seq<char>, light: Seq<char>) -> Seq<char>
    decreases rows,
{
    if rows == 0 {
        seq![]
    } else {
        ascii_rows(m, (rows - 1) as nat, dark, light) + ascii_row(m, rows - 1, m.size(), dark, light)
            + seq!['\n']
    }
}

/// With cells of equal length `L`, row `y` holds, from index `x * L`, the
/// `L` characters of the cell of column `x`: the dark cell where the module
/// at column `x`, row `y` is dark, else the light cell.
pub proof fn lemma_row_cells(m: QrMatrix, y: int, count: nat, dark: Seq<char>, light: Seq<char>)
    requires
        dark.len() == light.len(),
    ensures
        ascii_row(m, y, count, dark, light).len() == count * dark.len(),
        forall|x: int, i: int| 0 <= x < count && 0 <= i < dark.len() ==>
            #[trigger] ascii_row(m, y, count, dark, light)[x * dark.len() + i]
                == (if m.module(x, y) { dark[i] } else { light[i] }),
    decreases count,
{
    let len = dark.len() as int;
    if count > 0 {
        let n = count - 1;
        lemma_row_cells(m, y, n as nat, dark, light);
        let prev = ascii_row(m, y, n as nat, dark, light);
        let cell = if m.module(n, y) { dark } else { light };
        assert(ascii_row(m, y, count, dark, light) == prev + cell);
        assert(count * len == n * len + len) by (nonlinear_arith)
            requires
                count == n + 1,
        ;
        assert forall|x: int, i: int| 0 <= x < count && 0 <= i < len implies
            #[trigger] ascii_row(m, y, count, dark, light)[x * len + i]
                == (if m.module(x, y) { dark[i] } else { light[i] }) by {
            if x < n {
                assert(x * len + i < n * len) by (nonlinear_arith)
                    requires
                        x < n,
                        0 <= i < len,
                ;
                assert(0 <= x * len) by (nonlinear_arith)
                    requires
                        0 <= x,
                        0 <= len,
                ;
            } else {
                assert(x == n);
            }
        }
    }
}

/// With cells of equal length `L` in a matrix of side `w`, the first
/// `rows` lines take `rows * (w * L + 1)` characters; line `y` starts at
/// `y * (w * L + 1)`, holds the cell of column `x` from `x * L` on, and ends
/// with a line break at `w * L`.
pub proof fn lemma_rows_cells(m: QrMatrix, rows: nat, dark: Seq<char>, light: Seq<char>)
    requires
        dark.len() == light.len(),
    ensures
        ascii_rows(m, rows, dark, light).len() == rows * (m.size() * dark.len() + 1),
        forall|y: int, x: int, i: int| 0 <= y < rows && 0 <= x < m.size() && 0 <= i < dark.len() ==>
            #[trigger] ascii_rows(m, rows, dark, light)[y * (m.size() * dark.len() + 1) + x * dark.len() + i]
                == (if m.module(x, y) { dark[i] } else { light[i] }),
        forall|y: int| 0 <= y < rows ==>
            #[trigger] ascii_rows(m, rows, dark, light)[y * (m.size() * dark.len() + 1) + m.size() * dark.len()] == '\n',
    decreases rows,
{
    let len = dark.len() as int;
    let w = m.size() as int;
    let line = w * len + 1;
    if rows > 0 {
        let k = rows - 1;
        lemma_rows_cells(m, k as nat, dark, light);
        lemma_row_cells(m, k, m.size(), dark, light);
        let prev = ascii_rows(m, k as nat, dark, light);
        let row = ascii_row(m, k, m.size(), dark, light);
        let all = ascii_rows(m, rows, dark, light);
        assert(all == prev + row + seq!['\n']);
        assert(0 <= w * len) by (nonlinear_arith)
            requires
                0 <= w,
                0 <= len,
        ;
        assert(rows * line == k * line + line) by (nonlinear_arith)
            requires
                rows == k + 1,
        ;
        assert forall|y: int, x: int, i: int| 0 <= y < rows && 0 <= x < w && 0 <= i < len implies
            #[trigger] all[y * line + x * len + i] == (if m.module(x, y) { dark[i] } else { light[i] }) by {
            assert(x * len + i < w * len) by (nonlinear_arith)
                requires
                    x < w,
                    0 <= i < len,
            ;
            assert(0 <= x * len) by (nonlinear_arith)
                requires
                    0 <= x,
                    0 <= len,
            ;
            if y < k {
                assert(y * line + line <= k * line) by (nonlinear_arith)
                    requires
                        y < k,
                        0 <= line,
                ;
                assert(0 <= y * line) by (nonlinear_arith)
                    requires
                        0 <= y,
                        0 <= line,
                ;
                assert(all[y * line + x * len + i] == prev[y * line + x * len + i]);
            } else {
                assert(y == k);
                assert(all[y * line + x * len + i] == row[x * len + i]);
            }
        }
        assert forall|y: int| 0 <= y < rows implies #[trigger] all[y * line + w * len] == '\n' by {
            if y < k {
                assert(y * line + line <= k * line) by (nonlinear_arith)
                    requires
                        y < k,
                        0 <= line,
                ;
                assert(0 <= y * line) by (nonlinear_arith)
                    requires
                        0 <= y,
                        0 <= line,
                ;
                assert(all[y * line + w * len] == prev[y * line + w * len]);
            } else {
                assert(y == k);
            }
        }
    }
}

/// The text art is a grid: when the dark and light cells have the same
/// length `L`, line `y` of the art (counting from 0) holds, at cell `x`,
/// the dark cell exactly where the module at column `x`, row `y` is dark,
/// every line has `w` cells followed by a line break, and there are `w`
/// lines.
pub proof fn lemma_ascii_art_grid(m: QrMatrix, dark: Seq<char>, light: Seq<char>, x: int, y: int, i: int)
    requires
        dark.len() == light.len(),
        0 <= x < m.size(),
        0 <= y < m.size(),
        0 <= i < dark.len(),
    ensures
        ascii_rows(m, m.size(), dark, light).len() == m.size() * (m.size() * dark.len() + 1),
        ascii_rows(m, m.size(), dark, light)[y * (m.size() * dark.len() + 1) + x * dark.len() + i]
            == (if m.module(x, y) { dark[i] } else { light[i] }),
        ascii_rows(m, m.size(), dark, light)[y * (m.size() * dark.len() + 1) + m.size() * dark.len()] == '\n',
{
    lemma_rows_cells(m, m.size(), dark, light);
}

/// Draws every module of the matrix with the cells of `style`, one line
/// per row.
pub fn render_ascii_with_style(matrix: &QrMatrix, style: &AsciiStyle) -> (r: String)
    ensures
        r@ == ascii_rows(*matrix, matrix.size(), style.dark_text(), style.light_text()),
{
    let w = matrix.width();
    let mut output = String::new();
    let mut y: usize = 0;
    while y < w
        invariant
            w == matrix.size(),
            y <= w,
            output@ == ascii_rows(*matrix, y as nat, style.dark_text(), style.light_text()),
        decreases w - y,
    {
        let ghost before = output@;
        let mut x: usize = 0;
        while x < w
            invariant
                w == matrix.size(),
                y < w,
                x <= w,
                output@ == before + ascii_row(*matrix, y as int, x as nat, style.dark_text(), style.light_text()),
            decreases w - x,
        {
            proof {
                lemma_cell_index(w as int, x as int, y as int);
            }
            if matrix.is_dark(x, y) {
                output.append(style.dark.as_str());
            } else {
                output.append(style.light.as_str());
            }
            x = x + 1;
        }
        output.push('\n');
        y = y + 1;
    }
    output
}

/// Draws the matrix as terminal text with dark modules drawn as `dark`, if
/// `dark` makes a style.
pub fn render_ascii(matrix: &QrMatrix, dark: &str) -> (r: Result<String, WifiQrError>)
    ensures
        match style_cells(dark@) {
            Ok((d, l)) => r matches Ok(text) && text@ == ascii_rows(*matrix, matrix.size(), d, l),
            Err(e) => r == Err::<String, WifiQrError>(e),
        },
{
    let style = AsciiStyle::new(dark)?;
    Ok(render_ascii_with_style(matrix, &style))
}

} // verus!
