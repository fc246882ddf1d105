use wifiqr::ascii::{is_control, is_whitespace, render_ascii, AsciiStyle, DEFAULT_ASCII_CHAR};
use wifiqr::error::WifiQrError;
use wifiqr::matrix::{ErrorCorrection, QrMatrix};
use wifiqr::png::render_png;
use wifiqr::svg::{ensure_canvas_size, render_svg};

fn sample_matrix() -> QrMatrix {
    QrMatrix::new(2, vec![true, false, false, true]).unwrap()
}

#[test]
fn renders_ascii_with_default_square() {
    let matrix = sample_matrix();

    assert_eq!(
        render_ascii(&matrix, DEFAULT_ASCII_CHAR).unwrap(),
        "⬜  \n  ⬜\n"
    );
}

#[test]
fn renders_single_width_ascii_char_as_double_width_cell() {
    let matrix = sample_matrix();

    assert_eq!(render_ascii(&matrix, "#").unwrap(), "##  \n  ##\n");
}

#[test]
fn rejects_empty_ascii_char() {
    let error = render_ascii(&sample_matrix(), "").unwrap_err().message();

    assert_eq!(error, "--ascii-char must not be empty");
}

#[test]
fn rejects_invisible_ascii_char() {
    let error = render_ascii(&sample_matrix(), "  ").unwrap_err().message();

    assert_eq!(error, "--ascii-char must contain a visible character");
}

#[test]
fn rejects_control_ascii_char() {
    let error = render_ascii(&sample_matrix(), "#\n").unwrap_err().message();

    assert_eq!(error, "--ascii-char must not contain control characters");
}

#[test]
fn rejects_zero_width_ascii_char() {
    let error = render_ascii(&sample_matrix(), "\u{200b}").unwrap_err().message();
    assert_eq!(error, "--ascii-char must have visible width");
}

#[test]
fn wide_ascii_text_is_kept_once() {
    assert_eq!(render_ascii(&sample_matrix(), "[]").unwrap(), "[]  \n  []\n");
    assert!(AsciiStyle::new("ab").is_ok());
}

#[test]
fn matrix_needs_a_square_of_modules() {
    assert!(QrMatrix::new(2, vec![true, false, true]).is_none());
    let m = sample_matrix();
    assert_eq!(m.width(), 2);
    assert!(m.is_dark(0, 0));
    assert!(!m.is_dark(1, 0));
    assert!(m.is_dark(1, 1));
}

#[test]
fn lists_dark_modules_row_by_row() {
    let m = QrMatrix::new(3, vec![false, true, true, false, false, false, true, false, false]).unwrap();
    assert_eq!(m.dark_modules(), vec![(1, 0), (2, 0), (0, 2)]);
}

#[test]
fn border_surrounds_the_symbol_with_light_modules() {
    let m = QrMatrix::from_code(2, &vec![true, false, false, true], 1).unwrap();
    assert_eq!(m.width(), 4);
    assert_eq!(m.dark_modules(), vec![(1, 1), (2, 2)]);
    let error = QrMatrix::from_code(0, &vec![], usize::MAX).err().unwrap();
    assert_eq!(error.message(), "QR dimensions overflowed");
}

#[test]
fn encodes_a_payload_with_its_quiet_zone() {
    let m = QrMatrix::encode("hello", ErrorCorrection::H, 4).unwrap();
    assert_eq!(m.width(), 29);
    assert!(!m.is_dark(0, 0));
    assert!(!m.is_dark(3, 3));
    assert!(m.is_dark(4, 4));
    assert!(m.is_dark(10, 4));
    let bordered = QrMatrix::encode("hello", ErrorCorrection::H, 0).unwrap();
    assert_eq!(bordered.width(), 21);
    assert!(bordered.is_dark(0, 0));
}

#[test]
fn refuses_a_payload_too_long_for_any_symbol() {
    let long = "x".repeat(4000);
    let error = QrMatrix::encode(&long, ErrorCorrection::H, 4).err().unwrap();
    assert!(matches!(error, WifiQrError::QrGeneration));
    assert_eq!(error.message(), "failed to generate QR code");
}

#[test]
fn renders_svg_with_one_square_per_dark_module() {
    let svg = render_svg(&sample_matrix(), 10);
    assert_eq!(
        svg,
        "<svg xmlns=\"http://www.w3.org/2000/svg\" width=\"10\" height=\"10\" viewBox=\"0 0 2 2\" shape-rendering=\"crispEdges\">\n<rect width=\"100%\" height=\"100%\" fill=\"#fff\"/>\n<path d=\"M0 0h1v1H0zM1 1h1v1H1z\" fill=\"#000\"/>\n</svg>\n"
    );
}

#[test]
fn canvas_size_must_be_positive() {
    assert!(ensure_canvas_size(1).is_ok());
    assert_eq!(ensure_canvas_size(0).unwrap_err().message(), "--size must be greater than zero");
}

#[test]
fn renders_png_with_module_squares_centered() {
    let canvas = render_png(&sample_matrix(), 5).unwrap();
    let image = &canvas.image;
    assert_eq!(image.dimensions(), (5, 5));
    for y in 0..5u32 {
        for x in 0..5u32 {
            let dark = x < 4 && y < 4 && (x / 2) == (y / 2);
            let expected = if dark { [0, 0, 0] } else { [255, 255, 255] };
            assert_eq!(image.get_pixel(x, y).0, expected, "pixel ({x}, {y})");
        }
    }
    let m = QrMatrix::new(3, vec![false, true, true, false, false, false, true, false, false]).unwrap();
    let canvas = render_png(&m, 5).unwrap();
    assert_eq!(canvas.image.get_pixel(0, 0).0, [255, 255, 255]);
    assert_eq!(canvas.image.get_pixel(2, 1).0, [0, 0, 0]);
    assert_eq!(canvas.image.get_pixel(1, 1).0, [255, 255, 255]);
    assert_eq!(canvas.image.get_pixel(1, 3).0, [0, 0, 0]);
    assert_eq!(canvas.image.get_pixel(4, 4).0, [255, 255, 255]);
}

#[test]
fn refuses_a_canvas_smaller_than_the_code() {
    let error = render_png(&sample_matrix(), 1).err().unwrap();
    assert_eq!(error.message(), "--size 1 is too small for a QR code with 2 modules");
    let error = render_png(&sample_matrix(), 0).err().unwrap();
    assert_eq!(error.message(), "--size must be greater than zero");
}

#[test]
fn control_and_whitespace_sets_agree_with_char_methods() {
    for code in 0..=0x10ffffu32 {
        if let Some(c) = char::from_u32(code) {
            assert_eq!(is_control(c), c.is_control(), "U+{code:04X}");
            assert_eq!(is_whitespace(c), c.is_whitespace(), "U+{code:04X}");
        }
    }
}
